use ooze::error::OozeError;
use ooze::geometry::{Dimensions, Point, Rect};
use ooze::glyph::Glyph;
use ooze::panel::Panel;

fn color(r: f32, g: f32, b: f32, a: f32) -> [u32; 4] {
    [r.to_bits(), g.to_bits(), b.to_bits(), a.to_bits()]
}

fn white() -> [u32; 4] {
    color(1.0, 1.0, 1.0, 1.0)
}

fn black() -> [u32; 4] {
    color(0.0, 0.0, 0.0, 1.0)
}

fn ids(panel: &Panel) -> Vec<Vec<String>> {
    panel
        .contents
        .iter()
        .map(|column| column.iter().map(|glyph| glyph.sprite_id.clone()).collect())
        .collect()
}

#[test]
fn panel_new_fills_every_cell_with_the_blank_glyph_of_its_place() {
    let dims = Dimensions::new(8, 8, 3, 2, 5, 6);
    let panel = Panel::new(dims).unwrap();
    assert_eq!(panel.dims, dims);
    assert_eq!(panel.layer, 0);
    assert_eq!(panel.hidden, false);
    assert!(panel.sub_panels.is_empty());
    assert_eq!(panel.contents.len(), 3);
    for x in 0..3u32 {
        assert_eq!(panel.contents[x as usize].len(), 2);
        for y in 0..2u32 {
            let glyph = &panel.contents[x as usize][y as usize];
            assert_eq!(glyph, &Glyph::blank(Point::new(x, y)));
            assert_eq!(glyph.location, Point::new(x, y));
            assert_eq!(glyph.sprite_id, "empty");
            assert_eq!(glyph.fg_color, color(1.0, 1.0, 1.0, 0.0));
            assert_eq!(glyph.bg_color, color(0.0, 0.0, 0.0, 0.0));
        }
    }
}

#[test]
fn panel_new_refuses_dimensions_without_area() {
    assert!(matches!(Panel::new(Dimensions::new(8, 8, 0, 2, 0, 0)), Err(OozeError::OutOfBoundsError)));
    assert!(matches!(Panel::new(Dimensions::new(8, 8, 2, 0, 0, 0)), Err(OozeError::OutOfBoundsError)));
    assert!(Panel::new(Dimensions::new(8, 8, 1, 1, 0, 0)).is_ok());
}

#[test]
fn panel_rect_is_local() {
    let panel = Panel::new(Dimensions::new(8, 8, 3, 2, 5, 6)).unwrap();
    assert_eq!(panel.rect(), Rect::new(Point::new(0, 0), Point::new(3, 2)));
}

#[test]
fn hide_and_show_are_idempotent() {
    let mut panel = Panel::new(Dimensions::new(8, 8, 3, 2, 0, 0)).unwrap();
    panel.show();
    assert_eq!(panel.hidden, false);
    panel.conceal();
    assert_eq!(panel.hidden, true);
    panel.conceal();
    assert_eq!(panel.hidden, true);
    panel.show();
    assert_eq!(panel.hidden, false);
    panel.show();
    assert_eq!(panel.hidden, false);
}

#[test]
fn set_layer_sets_the_layer() {
    let mut panel = Panel::new(Dimensions::new(8, 8, 3, 2, 0, 0)).unwrap();
    panel.set_layer(7);
    assert_eq!(panel.layer, 7);
}

#[test]
fn place_then_get_gives_the_glyph_back() {
    let mut panel = Panel::new(Dimensions::new(8, 8, 4, 4, 2, 2)).unwrap();
    panel.place(1, 3, "ooze", color(0.0, 1.0, 0.0, 1.0), color(0.0, 0.0, 0.0, 0.0)).unwrap();
    let glyph = panel.get(Point::new(1, 3)).unwrap();
    assert_eq!(glyph.sprite_id, "ooze");
    assert_eq!(glyph.fg_color, color(0.0, 1.0, 0.0, 1.0));
    assert_eq!(glyph.bg_color, color(0.0, 0.0, 0.0, 0.0));
    assert_eq!(glyph.location, Point::new(1, 3));
    assert_eq!(panel.get(Point::new(1, 2)).unwrap(), &Glyph::blank(Point::new(1, 2)));
    assert_eq!(panel.get(Point::new(3, 1)).unwrap(), &Glyph::blank(Point::new(3, 1)));
}

#[test]
fn place_outside_of_the_panel_is_out_of_bounds() {
    let mut panel = Panel::new(Dimensions::new(8, 8, 4, 3, 2, 2)).unwrap();
    assert!(matches!(panel.place(4, 0, "x", white(), black()), Err(OozeError::OutOfBoundsError)));
    assert!(matches!(panel.place(0, 3, "x", white(), black()), Err(OozeError::OutOfBoundsError)));
    assert!(matches!(panel.place(5, 5, "x", white(), black()), Err(OozeError::OutOfBoundsError)));
    assert!(panel.place(3, 2, "x", white(), black()).is_ok());
    assert_eq!(ids(&panel)[3][2], "x");
    assert_eq!(ids(&panel).concat().iter().filter(|id| id.as_str() == "x").count(), 1);
}

#[test]
fn place_tests_the_colours_before_the_point() {
    let mut panel = Panel::new(Dimensions::new(8, 8, 4, 3, 0, 0)).unwrap();
    let bad = color(1.5, 0.0, 0.0, 1.0);
    match panel.place(9, 9, "x", bad, black()) {
        Err(OozeError::BadColorError(refused)) => assert_eq!(refused, bad),
        _ => panic!("the colour was not refused"),
    }
    match panel.place(0, 0, "x", white(), bad) {
        Err(OozeError::BadColorError(refused)) => assert_eq!(refused, bad),
        _ => panic!("the colour was not refused"),
    }
    assert_eq!(panel.get(Point::new(0, 0)).unwrap(), &Glyph::blank(Point::new(0, 0)));
}

#[test]
fn get_and_set_test_the_bounds() {
    let mut panel = Panel::new(Dimensions::new(8, 8, 2, 2, 10, 10)).unwrap();
    assert!(matches!(panel.get(Point::new(2, 0)), Err(OozeError::OutOfBoundsError)));
    assert!(matches!(panel.get(Point::new(0, 2)), Err(OozeError::OutOfBoundsError)));
    assert!(matches!(panel.get(Point::new(10, 10)), Err(OozeError::OutOfBoundsError)));
    let glyph = Glyph::new(Point::new(1, 1), white(), black(), "g".to_string()).unwrap();
    assert!(matches!(panel.set(Point::new(2, 2), glyph.clone()), Err(OozeError::OutOfBoundsError)));
    assert!(panel.set(Point::new(1, 0), glyph.clone()).is_ok());
    assert_eq!(panel.get(Point::new(1, 0)).unwrap(), &glyph);
    assert_eq!(panel.get(Point::new(1, 1)).unwrap(), &Glyph::blank(Point::new(1, 1)));
}

#[test]
fn add_sub_panel_rebases_the_offset_and_raises_the_layer() {
    let mut parent = Panel::new(Dimensions::new(8, 8, 10, 10, 3, 4)).unwrap();
    parent.set_layer(2);
    parent.add_sub_panel_with(Dimensions::new(8, 8, 4, 4, 2, 2)).unwrap();
    assert_eq!(parent.sub_panels.len(), 1);
    let child = &parent.sub_panels[0];
    assert_eq!(child.dims.offset, Point::new(5, 6));
    assert_eq!(child.dims.term_size, Point::new(4, 4));
    assert_eq!(child.layer, 3);
    assert_eq!(child.hidden, false);
    assert_eq!(child.contents.len(), 4);
    assert_eq!(parent.dims.offset, Point::new(3, 4));
    assert_eq!(parent.layer, 2);
}

#[test]
fn add_sub_panel_keeps_the_order_of_the_sub_panels() {
    let mut parent = Panel::new(Dimensions::new(8, 8, 10, 10, 0, 0)).unwrap();
    parent.add_sub_panel_with(Dimensions::new(8, 8, 1, 1, 0, 0)).unwrap();
    parent.add_sub_panel_with(Dimensions::new(8, 8, 2, 2, 1, 1)).unwrap();
    let mut third = Panel::new(Dimensions::new(8, 8, 3, 3, 7, 7)).unwrap();
    third.conceal();
    parent.add_sub_panel(third).unwrap();
    assert_eq!(parent.sub_panels.len(), 3);
    assert_eq!(parent.sub_panels[0].dims.term_size, Point::new(1, 1));
    assert_eq!(parent.sub_panels[1].dims.term_size, Point::new(2, 2));
    assert_eq!(parent.sub_panels[2].dims.term_size, Point::new(3, 3));
    assert_eq!(parent.sub_panels[2].hidden, true);
    assert_eq!(parent.sub_panels[2].layer, 1);
}

#[test]
fn a_child_that_leaves_the_parent_is_out_of_bounds() {
    let mut parent = Panel::new(Dimensions::new(8, 8, 10, 10, 0, 0)).unwrap();
    let result = parent.add_sub_panel_with(Dimensions::new(8, 8, 5, 5, 8, 8));
    assert!(matches!(result, Err(OozeError::OutOfBoundsError)));
    assert_eq!(parent.sub_panels.len(), 0);
    assert!(matches!(
        parent.add_sub_panel_with(Dimensions::new(8, 8, 11, 1, 0, 0)),
        Err(OozeError::OutOfBoundsError)
    ));
    assert!(matches!(
        parent.add_sub_panel_with(Dimensions::new(8, 8, 0, 0, 1, 1)),
        Err(OozeError::OutOfBoundsError)
    ));
    assert_eq!(parent.sub_panels.len(), 0);
    assert!(parent.add_sub_panel_with(Dimensions::new(8, 8, 5, 5, 5, 5)).is_ok());
    assert_eq!(parent.sub_panels.len(), 1);
}

#[test]
fn containment_is_tested_against_the_local_rect_of_the_parent() {
    let mut root = Panel::new(Dimensions::new(8, 8, 20, 20, 0, 0)).unwrap();
    root.add_sub_panel_with(Dimensions::new(8, 8, 6, 6, 10, 10)).unwrap();
    let child = &mut root.sub_panels[0];
    assert_eq!(child.dims.offset, Point::new(10, 10));
    child.add_sub_panel_with(Dimensions::new(8, 8, 2, 2, 4, 4)).unwrap();
    assert_eq!(child.sub_panels[0].dims.offset, Point::new(14, 14));
    assert_eq!(child.sub_panels[0].layer, 2);
    assert!(matches!(
        child.add_sub_panel_with(Dimensions::new(8, 8, 2, 2, 10, 10)),
        Err(OozeError::OutOfBoundsError)
    ));
    assert_eq!(child.sub_panels.len(), 1);
}

#[test]
fn the_topmost_layer_stays_the_topmost() {
    let mut parent = Panel::new(Dimensions::new(8, 8, 10, 10, 0, 0)).unwrap();
    parent.set_layer(usize::MAX);
    parent.add_sub_panel_with(Dimensions::new(8, 8, 1, 1, 0, 0)).unwrap();
    assert_eq!(parent.sub_panels[0].layer, usize::MAX);
}

#[test]
fn fill_with_fills_every_cell() {
    let mut panel = Panel::new(Dimensions::new(8, 8, 3, 2, 1, 1)).unwrap();
    panel.fill_with("floor", color(0.07, 0.04, 0.06, 1.0), black()).unwrap();
    for x in 0..3u32 {
        for y in 0..2u32 {
            let glyph = panel.get(Point::new(x, y)).unwrap();
            assert_eq!(glyph.sprite_id, "floor");
            assert_eq!(glyph.location, Point::new(x, y));
            assert_eq!(glyph.fg_color, color(0.07, 0.04, 0.06, 1.0));
            assert_eq!(glyph.bg_color, black());
        }
    }
}

#[test]
fn make_border_fills_the_ring_and_nothing_inside() {
    let mut panel = Panel::new(Dimensions::new(8, 8, 4, 5, 0, 0)).unwrap();
    panel.make_border("wall", white(), black()).unwrap();
    for x in 0..4u32 {
        for y in 0..5u32 {
            let on_ring = x == 0 || x == 3 || y == 0 || y == 4;
            let glyph = panel.get(Point::new(x, y)).unwrap();
            if on_ring {
                assert_eq!(glyph.sprite_id, "wall");
                assert_eq!(glyph.location, Point::new(x, y));
            } else {
                assert_eq!(glyph, &Glyph::blank(Point::new(x, y)));
            }
        }
    }
}

#[test]
fn make_border_of_a_thin_panel_fills_it() {
    let mut panel = Panel::new(Dimensions::new(8, 8, 1, 3, 0, 0)).unwrap();
    panel.make_border("wall", white(), black()).unwrap();
    assert_eq!(ids(&panel), vec![vec!["wall".to_string(), "wall".to_string(), "wall".to_string()]]);
}

#[test]
fn bulk_operations_fail_with_nothing_changed() {
    let mut panel = Panel::new(Dimensions::new(8, 8, 3, 3, 0, 0)).unwrap();
    let bad = color(0.0, 0.0, 0.0, 1.01);
    match panel.fill_with("floor", white(), bad) {
        Err(OozeError::BadColorError(refused)) => assert_eq!(refused, bad),
        _ => panic!("the colour was not refused"),
    }
    match panel.make_border("wall", bad, white()) {
        Err(OozeError::BadColorError(refused)) => assert_eq!(refused, bad),
        _ => panic!("the colour was not refused"),
    }
    for x in 0..3u32 {
        for y in 0..3u32 {
            assert_eq!(panel.get(Point::new(x, y)).unwrap(), &Glyph::blank(Point::new(x, y)));
        }
    }
}

#[test]
fn fill_with_random_takes_six_draws_for_each_cell() {
    let mut panel = Panel::new(Dimensions::new(8, 8, 2, 2, 0, 0)).unwrap();
    let mut draws: Vec<u32> = Vec::new();
    for k in 0..24 {
        draws.push((k as f32 / 32.0).to_bits());
    }
    panel.fill_with_random(&draws).unwrap();
    let order = [Point::new(0, 0), Point::new(0, 1), Point::new(1, 0), Point::new(1, 1)];
    for (k, point) in order.iter().enumerate() {
        let glyph = panel.get(*point).unwrap();
        assert_eq!(glyph.sprite_id, "@");
        assert_eq!(glyph.location, *point);
        assert_eq!(glyph.fg_color, [draws[6 * k], draws[6 * k + 1], draws[6 * k + 2], 1.0f32.to_bits()]);
        assert_eq!(glyph.bg_color, [draws[6 * k + 3], draws[6 * k + 4], draws[6 * k + 5], 1.0f32.to_bits()]);
        assert!(glyph.is_opaque());
    }
}

#[test]
fn fill_with_random_needs_enough_draws() {
    let mut panel = Panel::new(Dimensions::new(8, 8, 2, 2, 0, 0)).unwrap();
    let draws: Vec<u32> = vec![0; 23];
    assert!(matches!(panel.fill_with_random(&draws), Err(OozeError::GenericError)));
    assert_eq!(panel.get(Point::new(0, 0)).unwrap(), &Glyph::blank(Point::new(0, 0)));
}

#[test]
fn fill_with_random_stops_at_the_first_bad_draw() {
    let mut panel = Panel::new(Dimensions::new(8, 8, 2, 2, 0, 0)).unwrap();
    let mut draws: Vec<u32> = vec![0.5f32.to_bits(); 24];
    draws[12 + 4] = 1.5f32.to_bits();
    match panel.fill_with_random(&draws) {
        Err(OozeError::BadColorError(refused)) => {
            assert_eq!(refused, color(0.5, 1.5, 0.5, 1.0));
        }
        _ => panic!("the colour was not refused"),
    }
    assert_eq!(panel.get(Point::new(0, 0)).unwrap().sprite_id, "@");
    assert_eq!(panel.get(Point::new(0, 1)).unwrap().sprite_id, "@");
    assert_eq!(panel.get(Point::new(1, 0)).unwrap(), &Glyph::blank(Point::new(1, 0)));
    assert_eq!(panel.get(Point::new(1, 1)).unwrap(), &Glyph::blank(Point::new(1, 1)));
}

#[test]
fn glyphs_go_column_by_column() {
    let mut panel = Panel::new(Dimensions::new(8, 8, 2, 3, 0, 0)).unwrap();
    panel.place(1, 0, "a", white(), black()).unwrap();
    panel.place(0, 2, "b", white(), black()).unwrap();
    let found: Vec<String> = panel.glyphs().iter().map(|glyph| glyph.sprite_id.clone()).collect();
    assert_eq!(found, vec!["empty", "empty", "b", "a", "empty", "empty"]);
    let places: Vec<Point> = panel.glyphs().iter().map(|glyph| glyph.location).collect();
    assert_eq!(
        places,
        vec![
            Point::new(0, 0),
            Point::new(0, 1),
            Point::new(0, 2),
            Point::new(1, 0),
            Point::new(1, 1),
            Point::new(1, 2),
        ]
    );
}

#[test]
fn all_sub_panels_walks_the_tree_depth_first() {
    let mut root = Panel::new(Dimensions::new(8, 8, 20, 20, 0, 0)).unwrap();
    root.add_sub_panel_with(Dimensions::new(8, 8, 10, 10, 0, 0)).unwrap();
    root.add_sub_panel_with(Dimensions::new(8, 8, 9, 9, 0, 0)).unwrap();
    root.sub_panels[0].add_sub_panel_with(Dimensions::new(8, 8, 5, 5, 0, 0)).unwrap();
    root.sub_panels[0].add_sub_panel_with(Dimensions::new(8, 8, 4, 4, 0, 0)).unwrap();
    root.sub_panels[0].sub_panels[0].add_sub_panel_with(Dimensions::new(8, 8, 1, 1, 0, 0)).unwrap();
    let widths: Vec<u32> = root.all_sub_panels().iter().map(|panel| panel.dims.term_size.x).collect();
    assert_eq!(widths, vec![20, 10, 5, 1, 4, 9]);
    let layers: Vec<usize> = root.all_sub_panels().iter().map(|panel| panel.layer).collect();
    assert_eq!(layers, vec![0, 1, 2, 3, 2, 1]);
}
