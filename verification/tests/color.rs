use ooze::color::{Color, NormFloat, NEGATIVE_ZERO, ONE, ZERO};

fn single(value: f32) -> u32 {
    value.to_bits()
}

fn double(value: f64) -> u32 {
    (value as f32).to_bits()
}

fn channels(color: Color) -> [f32; 4] {
    let bits = color.as_array();
    [
        f32::from_bits(bits[0]),
        f32::from_bits(bits[1]),
        f32::from_bits(bits[2]),
        f32::from_bits(bits[3]),
    ]
}

#[test]
fn test_normfloat() {
    assert_eq!(NormFloat::from(single(0.6f32)), NormFloat::from(double(0.6f64)));
    assert_eq!(NormFloat::from(double(3.0)), NormFloat::from(double(1.0)));
    assert_eq!(NormFloat::from(double(-1.0)), NormFloat::from(double(0.0)));
}

#[test]
fn test_color_new() {
    let c1 = Color::from([double(0.5), double(0.5), double(0.5), double(1.0)]);
    let c2 = Color::new(
        NormFloat::from(double(0.5)),
        NormFloat::from(double(0.5)),
        NormFloat::from(double(0.5)),
        NormFloat::from(double(1.0)),
    );
    assert_eq!(c1, c2);
}

#[test]
fn test_is_opaque() {
    let c1 = Color::from([double(0.1), double(0.2), double(0.3), double(1.0)]);
    assert_eq!(c1.is_opaque(), true);
    let c2 = Color::from([double(0.1), double(0.2), double(0.3), double(0.5)]);
    assert_eq!(c2.is_opaque(), false);
}

#[test]
fn test_as_array() {
    let c1 = Color::from([double(0.1), double(0.2), double(0.3), double(1.0)]);
    let arr: [f32; 4] = [0.1, 0.2, 0.3, 1.0];
    assert_eq!(channels(c1), arr);
}

#[test]
fn test_from_array() {
    let arr1 = [double(0.1), double(0.2), double(0.3)];
    let arr2 = [double(0.1), double(0.2), double(0.3), double(0.4)];
    let c1: Color = arr1.into();
    let c2 = Color::from(arr2);
    assert_eq!(c1, Color::from([double(0.1), double(0.2), double(0.3), double(1.0)]));
    assert_eq!(c2, Color::from([double(0.1), double(0.2), double(0.3), double(0.4)]));
}

#[test]
fn norm_float_clamps_every_kind_of_number() {
    assert_eq!(NormFloat::from_bits(single(0.25)).to_bits(), single(0.25));
    assert_eq!(NormFloat::from_bits(single(1.0)).to_bits(), ONE);
    assert_eq!(NormFloat::from_bits(single(1.0000001)).to_bits(), ONE);
    assert_eq!(NormFloat::from_bits(single(f32::INFINITY)).to_bits(), ONE);
    assert_eq!(NormFloat::from_bits(single(-0.0)).to_bits(), ZERO);
    assert_eq!(NormFloat::from_bits(NEGATIVE_ZERO).to_bits(), ZERO);
    assert_eq!(NormFloat::from_bits(single(-3.5)).to_bits(), ZERO);
    assert_eq!(NormFloat::from_bits(single(f32::NEG_INFINITY)).to_bits(), ZERO);
    assert_eq!(NormFloat::from_bits(single(f32::NAN)).to_bits(), ZERO);
    assert_eq!(NormFloat::from_bits(0xFFC0_0000).to_bits(), ZERO);
    assert_eq!(NormFloat::from_bits(single(f32::MIN_POSITIVE)).to_bits(), single(f32::MIN_POSITIVE));
}

#[test]
fn norm_float_clamp_agrees_with_the_numbers() {
    let samples: [f32; 9] = [0.0, 0.1, 0.5, 0.999, 1.0, 1.5, -0.2, 100.0, -7.0];
    for value in samples {
        let clamped = f32::from_bits(NormFloat::from_bits(value.to_bits()).to_bits());
        assert_eq!(clamped, value.max(0.0).min(1.0));
    }
}

#[test]
fn norm_floats_order_as_their_numbers() {
    let low = NormFloat::from_bits(single(0.2));
    let high = NormFloat::from_bits(single(0.7));
    assert!(low < high);
    assert!(NormFloat::from_bits(single(-1.0)) < low);
    assert!(high < NormFloat::from_bits(single(2.0)));
    assert_eq!(NormFloat::from_bits(single(-0.0)), NormFloat::from_bits(single(0.0)));
}

#[test]
fn named_colors_hold_their_channels() {
    assert_eq!(channels(Color::white()), [1.0, 1.0, 1.0, 1.0]);
    assert_eq!(channels(Color::black()), [0.0, 0.0, 0.0, 1.0]);
    assert_eq!(channels(Color::clear()), [0.0, 0.0, 0.0, 0.0]);
    assert_eq!(channels(Color::red()), [1.0, 0.0, 0.0, 1.0]);
    assert_eq!(channels(Color::green()), [0.0, 1.0, 0.0, 1.0]);
    assert_eq!(channels(Color::blue()), [0.0, 0.0, 1.0, 1.0]);
    assert!(Color::white().is_opaque());
    assert!(!Color::clear().is_opaque());
}

#[test]
fn color_from_rgb_is_opaque() {
    let color = Color::from_rgb_bits([single(2.0), single(-1.0), single(0.5)]);
    assert_eq!(channels(color), [1.0, 0.0, 0.5, 1.0]);
    assert!(color.is_opaque());
    assert_eq!(Color::from_bits([single(0.5), single(0.5), single(0.5), single(7.0)]).is_opaque(), true);
}

#[test]
fn channel_range_tests() {
    assert!(ooze::color::channel_in_range(single(0.0)));
    assert!(ooze::color::channel_in_range(single(-0.0)));
    assert!(ooze::color::channel_in_range(single(1.0)));
    assert!(ooze::color::channel_in_range(single(0.33)));
    assert!(!ooze::color::channel_in_range(single(1.1)));
    assert!(!ooze::color::channel_in_range(single(-0.1)));
    assert!(!ooze::color::channel_in_range(single(f32::NAN)));
    assert!(!ooze::color::channel_in_range(single(f32::INFINITY)));
    assert!(ooze::color::color_in_range(&[single(0.0), single(0.5), single(1.0), single(1.0)]));
    assert!(!ooze::color::color_in_range(&[single(0.0), single(0.5), single(1.0), single(1.5)]));
}
