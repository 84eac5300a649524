use ooze::error::OozeError;
use ooze::geometry::Point;
use ooze::glyph::Glyph;

fn color(r: f32, g: f32, b: f32, a: f32) -> [u32; 4] {
    [r.to_bits(), g.to_bits(), b.to_bits(), a.to_bits()]
}

#[test]
fn glyph_new_keeps_what_it_is_given() {
    let glyph = Glyph::new(
        Point::new(3, 4),
        color(1.0, 0.5, 0.0, 1.0),
        color(0.0, 0.0, 0.25, 0.5),
        "wall".to_string(),
    )
    .unwrap();
    assert_eq!(glyph.location, Point::new(3, 4));
    assert_eq!(glyph.fg_color, color(1.0, 0.5, 0.0, 1.0));
    assert_eq!(glyph.bg_color, color(0.0, 0.0, 0.25, 0.5));
    assert_eq!(glyph.sprite_id, "wall");
}

#[test]
fn glyph_new_refuses_a_foreground_out_of_range() {
    let result = Glyph::new(
        Point::new(0, 0),
        color(1.1, 0.0, 0.0, 1.0),
        color(0.0, 0.0, 0.0, 1.0),
        "x".to_string(),
    );
    match result {
        Err(OozeError::BadColorError(bad)) => assert_eq!(bad, color(1.1, 0.0, 0.0, 1.0)),
        _ => panic!("a colour out of range was accepted"),
    }
}

#[test]
fn glyph_new_refuses_a_background_out_of_range() {
    let result = Glyph::new(
        Point::new(0, 0),
        color(1.0, 0.0, 0.0, 1.0),
        color(0.0, -0.5, 0.0, 1.0),
        "x".to_string(),
    );
    match result {
        Err(OozeError::BadColorError(bad)) => assert_eq!(bad, color(0.0, -0.5, 0.0, 1.0)),
        _ => panic!("a colour out of range was accepted"),
    }
}

#[test]
fn glyph_new_names_the_foreground_first() {
    let result = Glyph::new(
        Point::new(0, 0),
        color(0.0, 0.0, 0.0, 2.0),
        color(3.0, 0.0, 0.0, 1.0),
        "x".to_string(),
    );
    match result {
        Err(OozeError::BadColorError(bad)) => assert_eq!(bad, color(0.0, 0.0, 0.0, 2.0)),
        _ => panic!("a colour out of range was accepted"),
    }
}

#[test]
fn glyph_new_accepts_the_ends_of_the_range() {
    assert!(Glyph::new(Point::new(0, 0), color(0.0, 1.0, 0.0, 1.0), color(1.0, 1.0, 1.0, 0.0), "x".to_string()).is_ok());
    assert!(Glyph::new(Point::new(0, 0), color(-0.0, 1.0, 0.0, 1.0), color(1.0, 1.0, 1.0, -0.0), "x".to_string()).is_ok());
}

#[test]
fn glyph_new_refuses_what_is_not_a_number() {
    assert!(matches!(
        Glyph::new(Point::new(0, 0), color(f32::NAN, 1.0, 0.0, 1.0), color(1.0, 1.0, 1.0, 0.0), "x".to_string()),
        Err(OozeError::BadColorError(_))
    ));
    assert!(matches!(
        Glyph::new(Point::new(0, 0), color(0.0, 1.0, 0.0, 1.0), color(1.0, f32::INFINITY, 1.0, 0.0), "x".to_string()),
        Err(OozeError::BadColorError(_))
    ));
}

#[test]
fn glyph_is_opaque_by_its_background() {
    let opaque = Glyph::new(Point::new(0, 0), color(1.0, 1.0, 1.0, 0.0), color(0.0, 0.0, 0.0, 1.0), "x".to_string()).unwrap();
    let clear = Glyph::new(Point::new(0, 0), color(1.0, 1.0, 1.0, 1.0), color(0.0, 0.0, 0.0, 0.5), "x".to_string()).unwrap();
    assert!(opaque.is_opaque());
    assert!(!clear.is_opaque());
}

#[test]
fn glyph_is_fully_transparent_when_both_alphas_are_zero() {
    let both = Glyph::new(Point::new(0, 0), color(1.0, 1.0, 1.0, 0.0), color(0.0, 0.0, 0.0, 0.0), "x".to_string()).unwrap();
    let signed = Glyph::new(Point::new(0, 0), color(1.0, 1.0, 1.0, -0.0), color(0.0, 0.0, 0.0, 0.0), "x".to_string()).unwrap();
    let fg_only = Glyph::new(Point::new(0, 0), color(1.0, 1.0, 1.0, 0.0), color(0.0, 0.0, 0.0, 0.1), "x".to_string()).unwrap();
    let bg_only = Glyph::new(Point::new(0, 0), color(1.0, 1.0, 1.0, 1.0), color(0.0, 0.0, 0.0, 0.0), "x".to_string()).unwrap();
    assert!(both.fully_transparent());
    assert!(signed.fully_transparent());
    assert!(!fg_only.fully_transparent());
    assert!(!bg_only.fully_transparent());
}

#[test]
fn blank_glyph_is_empty_and_transparent() {
    let glyph = Glyph::blank(Point::new(7, 9));
    assert_eq!(glyph.location, Point::new(7, 9));
    assert_eq!(glyph.fg_color, color(1.0, 1.0, 1.0, 0.0));
    assert_eq!(glyph.bg_color, color(0.0, 0.0, 0.0, 0.0));
    assert_eq!(glyph.sprite_id, "empty");
    assert!(glyph.fully_transparent());
    assert!(!glyph.is_opaque());
}

#[test]
fn error_messages() {
    assert_eq!(OozeError::BadColorError([0, 0, 0, 0]).message(), "A color was badly formatted.");
    assert_eq!(OozeError::OutOfBoundsError.message(), "Something was out of bounds.");
    assert_eq!(OozeError::GenericError.message(), "Generic error occured with ooze.");
    assert_eq!(OozeError::BadColorError([0, 0, 0, 0]).description(), "A badly formatted color");
    assert_eq!(OozeError::OutOfBoundsError.description(), "Out of bounds");
    assert_eq!(OozeError::GenericError.description(), "Generic ooze error");
}
