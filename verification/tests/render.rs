use ooze::color::Color;
use ooze::render::{Glyph, Renderable, Renderer, Terminal};

fn glyph(texture: usize) -> Glyph {
    Glyph::new(texture, 0)
}

fn cells(frame: &Vec<(Glyph, (usize, usize), usize)>) -> Vec<(usize, (usize, usize), usize)> {
    frame.iter().map(|(glyph, cell, layer)| (glyph.texture, *cell, *layer)).collect()
}

#[test]
fn layered_glyph_new_is_white_on_clear() {
    let plain = Glyph::new(3, 4);
    assert_eq!(plain.texture(), 3);
    assert_eq!(plain.program(), 4);
    assert_eq!(plain.fg_color, Color::white());
    assert_eq!(plain.bg_color, Color::clear());
    let colored = Glyph::new_ex(1, 2, Color::red(), Color::blue());
    assert_eq!(colored.texture, 1);
    assert_eq!(colored.program, 2);
    assert_eq!(colored.fg_color, Color::red());
    assert_eq!(colored.bg_color, Color::blue());
}

#[test]
fn layered_terminal_new_is_empty() {
    let mut terminal = Terminal::new(3, 2, 2);
    assert_eq!(terminal.size(), (3, 2, 2));
    assert!(terminal.get_all().iter().all(|held| held.is_none()));
    assert_eq!(terminal.get_all().len(), 12);
    assert!(terminal.render().is_empty());
}

#[test]
fn layered_terminal_without_cells() {
    let mut terminal = Terminal::new(0, 5, 2);
    assert!(terminal.get_points().is_empty());
    assert!(terminal.get_all().is_empty());
    terminal.clear();
    assert!(terminal.render().is_empty());
}

#[test]
fn get_points_goes_cell_by_cell_and_layer_by_layer() {
    let terminal = Terminal::new(2, 2, 2);
    assert_eq!(
        terminal.get_points(),
        vec![(0, 0, 0), (0, 0, 1), (0, 1, 0), (0, 1, 1), (1, 0, 0), (1, 0, 1), (1, 1, 0), (1, 1, 1)]
    );
}

#[test]
fn set_then_get_and_get_all() {
    let mut terminal = Terminal::new(2, 2, 2);
    terminal.set(1, 0, 1, glyph(7));
    terminal.set(0, 1, 0, glyph(8));
    assert_eq!(terminal.get(1, 0, 1), &Some(glyph(7)));
    assert_eq!(terminal.get(0, 1, 0), &Some(glyph(8)));
    assert_eq!(terminal.get(1, 0, 0), &None);
    let all: Vec<Option<usize>> =
        terminal.get_all().iter().map(|held| held.map(|glyph| glyph.texture)).collect();
    assert_eq!(all, vec![None, None, Some(8), None, None, Some(7), None, None]);
    terminal.set_empty(1, 0, 1);
    assert_eq!(terminal.get(1, 0, 1), &None);
}

#[test]
fn render_draws_what_changed_lowest_layer_first() {
    let mut terminal = Terminal::new(3, 3, 3);
    terminal.set(2, 2, 2, glyph(1));
    terminal.set(0, 0, 1, glyph(2));
    terminal.set(2, 2, 0, glyph(3));
    terminal.set(1, 1, 1, glyph(4));
    terminal.set(0, 0, 0, glyph(5));
    assert_eq!(
        cells(&terminal.render()),
        vec![(3, (2, 2), 0), (5, (0, 0), 0), (2, (0, 0), 1), (4, (1, 1), 1), (1, (2, 2), 2)]
    );
}

#[test]
fn render_draws_a_cell_once_however_often_it_changed() {
    let mut terminal = Terminal::new(2, 2, 1);
    terminal.set(0, 0, 0, glyph(1));
    terminal.set(0, 0, 0, glyph(2));
    terminal.set(1, 1, 0, glyph(3));
    terminal.set(0, 0, 0, glyph(4));
    assert_eq!(cells(&terminal.render()), vec![(4, (0, 0), 0), (3, (1, 1), 0)]);
}

#[test]
fn render_draws_a_changed_cell_in_two_frames() {
    let mut terminal = Terminal::new(2, 2, 1);
    terminal.set(0, 0, 0, glyph(1));
    terminal.set(1, 0, 0, glyph(2));
    assert_eq!(cells(&terminal.render()), vec![(1, (0, 0), 0), (2, (1, 0), 0)]);
    terminal.set(1, 1, 0, glyph(3));
    terminal.set(1, 0, 0, glyph(4));
    assert_eq!(cells(&terminal.render()), vec![(3, (1, 1), 0), (4, (1, 0), 0), (1, (0, 0), 0)]);
    assert_eq!(cells(&terminal.render()), vec![(3, (1, 1), 0), (4, (1, 0), 0)]);
    assert!(terminal.render().is_empty());
    assert_eq!(terminal.get(0, 0, 0), &Some(glyph(1)));
}

#[test]
fn render_draws_nothing_for_an_emptied_cell_but_keeps_its_layers() {
    let mut terminal = Terminal::new(2, 2, 2);
    terminal.set(0, 0, 0, glyph(1));
    terminal.set(0, 0, 1, glyph(2));
    terminal.render();
    terminal.render();
    terminal.set_empty(0, 0, 1);
    assert_eq!(cells(&terminal.render()), vec![(1, (0, 0), 0)]);
    assert_eq!(cells(&terminal.render()), vec![(1, (0, 0), 0)]);
    assert!(terminal.render().is_empty());
}

#[test]
fn clear_dirties_ends_a_frame_without_drawing() {
    let mut terminal = Terminal::new(2, 2, 1);
    terminal.set(0, 0, 0, glyph(1));
    terminal.clear_dirties();
    terminal.set(1, 1, 0, glyph(2));
    assert_eq!(cells(&terminal.render()), vec![(2, (1, 1), 0), (1, (0, 0), 0)]);
    terminal.clear_dirties();
    terminal.clear_dirties();
    assert!(terminal.render().is_empty());
}

#[test]
fn layered_fill_with_fills_one_layer() {
    let mut terminal = Terminal::new(2, 3, 2);
    terminal.set(1, 1, 0, glyph(9));
    terminal.render();
    terminal.render();
    terminal.fill_with(1, glyph(5));
    for x in 0..2 {
        for y in 0..3 {
            assert_eq!(terminal.get(x, y, 1), &Some(glyph(5)));
        }
    }
    assert_eq!(terminal.get(1, 1, 0), &Some(glyph(9)));
    assert_eq!(terminal.get(0, 0, 0), &None);
    assert_eq!(
        cells(&terminal.render()),
        vec![
            (9, (1, 1), 0),
            (5, (0, 0), 1),
            (5, (0, 1), 1),
            (5, (0, 2), 1),
            (5, (1, 0), 1),
            (5, (1, 1), 1),
            (5, (1, 2), 1),
        ]
    );
}

#[test]
fn layered_make_border_fills_the_ring() {
    let mut terminal = Terminal::new(4, 3, 1);
    terminal.make_border(0, glyph(6));
    for x in 0..4 {
        for y in 0..3 {
            let on_ring = x == 0 || x == 3 || y == 0 || y == 2;
            assert_eq!(terminal.get(x, y, 0).is_some(), on_ring);
        }
    }
    let frame = terminal.render();
    assert_eq!(frame.len(), 10);
    assert_eq!(cells(&frame)[0], (6, (0, 0), 0));
    assert_eq!(cells(&frame)[3], (6, (1, 0), 0));
    assert_eq!(cells(&frame)[4], (6, (1, 2), 0));
}

#[test]
fn clear_layer_and_clear_empty_and_mark_every_cell() {
    let mut terminal = Terminal::new(2, 2, 2);
    terminal.fill_with(0, glyph(1));
    terminal.fill_with(1, glyph(2));
    terminal.render();
    terminal.render();
    terminal.clear_layer(1);
    assert!(terminal.get_all().iter().filter(|held| held.is_some()).count() == 4);
    assert_eq!(
        cells(&terminal.render()),
        vec![(1, (0, 0), 0), (1, (0, 1), 0), (1, (1, 0), 0), (1, (1, 1), 0)]
    );
    terminal.clear();
    assert!(terminal.get_all().iter().all(|held| held.is_none()));
    assert!(terminal.render().is_empty());
    terminal.set(0, 1, 1, glyph(3));
    assert_eq!(cells(&terminal.render()), vec![(3, (0, 1), 1)]);
}
