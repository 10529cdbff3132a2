use plurimus::buffer::Buffer;
use plurimus::geometry::{Position, Rect};
use plurimus::style::{Color, Modifier, Style};

fn symbols(buffer: &Buffer) -> String {
    (0..buffer.area.width)
        .map(|x| buffer.cell(Position::new(buffer.area.x + x, buffer.area.y)).unwrap().symbol.clone())
        .collect()
}

#[test]
fn a_string_stops_at_its_width_budget() {
    let mut buffer = Buffer::empty(Rect::new(0, 0, 6, 1));
    let end = buffer.set_stringn(1, 0, "hello", 3, Style::new());
    assert_eq!(end, 4);
    assert_eq!(symbols(&buffer), " hel  ");
}

#[test]
fn a_string_stops_at_the_right_edge() {
    let mut buffer = Buffer::empty(Rect::new(0, 0, 3, 1));
    let end = buffer.set_stringn(1, 0, "hello", usize::MAX, Style::new());
    assert_eq!(end, 3);
    assert_eq!(symbols(&buffer), " he");
}

#[test]
fn a_wide_grapheme_that_does_not_fit_ends_the_string() {
    let mut buffer = Buffer::empty(Rect::new(0, 0, 3, 1));
    let end = buffer.set_stringn(0, 0, "aあb", 2, Style::new());
    assert_eq!(end, 1);
    assert_eq!(symbols(&buffer), "a  ");
}

#[test]
fn wide_graphemes_blank_the_cells_they_cover() {
    let mut buffer = Buffer::empty(Rect::new(0, 0, 3, 1));
    buffer.set_stringn(0, 0, "xyz", usize::MAX, Style::new());
    let end = buffer.set_stringn(0, 0, "あ", usize::MAX, Style::new());
    assert_eq!(end, 2);
    assert_eq!(symbols(&buffer), "あ z");
}

#[test]
fn control_characters_are_dropped() {
    let mut buffer = Buffer::empty(Rect::new(0, 0, 3, 1));
    let end = buffer.set_stringn(0, 0, "a\tb", usize::MAX, Style::new());
    assert_eq!(end, 2);
    assert_eq!(symbols(&buffer), "ab ");
}

#[test]
fn styles_patch_the_cells_they_land_on() {
    let mut buffer = Buffer::empty(Rect::new(0, 0, 1, 1));
    let bold = Style::new().fg(Color::Red).add_modifier(Modifier::bold());
    buffer.set_stringn(0, 0, "x", usize::MAX, bold);
    buffer.set_stringn(0, 0, "y", usize::MAX, Style::new().bg(Color::Blue));
    let cell = buffer.cell(Position::new(0, 0)).unwrap();
    assert_eq!(cell.symbol, "y");
    assert_eq!(cell.fg, Color::Red);
    assert_eq!(cell.bg, Color::Blue);
    assert_eq!(cell.modifier, Modifier::bold());
}
