use plurimus::buffer::Buffer;
use plurimus::geometry::{Position, Rect};
use plurimus::sprite2d::{
    block_pixels, palette_color, resolve_pixels, rows_of, stamp_row, PixelBlock, SubcellMode,
};
use plurimus::style::{Color, Style};

fn row_symbols(buffer: &Buffer, y: u16) -> String {
    (buffer.area.x..buffer.area.x + buffer.area.width)
        .map(|x| buffer.cell(Position::new(x, y)).unwrap().symbol.clone())
        .collect()
}

#[test]
fn rows_split_at_newlines() {
    assert_eq!(rows_of("ab\n\ncd"), vec!["ab", "", "cd"]);
    assert_eq!(rows_of(""), vec![""]);
}

#[test]
fn the_first_palette_entry_wins() {
    let palette = [('r', Color::Red), ('g', Color::Green), ('r', Color::Blue)];
    assert_eq!(palette_color(&palette, 'r'), Some(Color::Red));
    assert_eq!(palette_color(&palette, 'x'), None);
}

#[test]
fn ragged_pixel_block_rows_pad_to_the_widest() {
    let block = PixelBlock::new("r\nrg", vec![('r', Color::Red), ('g', Color::Green)]);
    let mut cells = Vec::new();

    let width = resolve_pixels(&block, &mut cells);

    assert_eq!(width, 2);
    assert_eq!(cells, vec![Some(Color::Red), None, Some(Color::Red), Some(Color::Green)]);
}

#[test]
fn pixel_blocks_mirror_horizontally() {
    let block = PixelBlock::new("rg.", vec![('r', Color::Red), ('g', Color::Green)]).mirrored(true);
    let mut cells = vec![Some(Color::Blue)];

    let width = resolve_pixels(&block, &mut cells);

    assert_eq!(width, 3);
    assert_eq!(cells, vec![Some(Color::Blue), None, Some(Color::Green), Some(Color::Red)]);
}

#[test]
fn block_pixels_center_on_the_anchor_and_drop_transparent_ones() {
    let cells = [Some(Color::Red), None, Some(Color::Green), Some(Color::Blue)];
    let pixels = block_pixels(&cells, 0, 4, 2, 2, (5, 5));
    assert_eq!(
        pixels,
        vec![(4, 4, Color::Red), (4, 5, Color::Green), (5, 5, Color::Blue)]
    );
    let clipped = block_pixels(&cells, 0, 4, 2, 2, (0, 0));
    assert_eq!(clipped, vec![(0, 0, Color::Blue)]);
}

#[test]
fn glyph_rows_stamp_with_transparent_spaces() {
    let mut buffer = Buffer::empty(Rect::new(0, 0, 5, 1));
    buffer.set_stringn(0, 0, ".....", usize::MAX, Style::new());

    assert!(stamp_row(&mut buffer, "a b", Style::new(), (1, 0)));

    assert_eq!(row_symbols(&buffer, 0), ".a.b.");
}

#[test]
fn wide_graphemes_occupy_their_display_width() {
    let mut buffer = Buffer::empty(Rect::new(0, 0, 4, 1));
    buffer.set_stringn(0, 0, "....", usize::MAX, Style::new());

    assert!(stamp_row(&mut buffer, "あb", Style::new().fg(Color::Red), (0, 0)));

    assert_eq!(buffer.cell(Position::new(0, 0)).unwrap().symbol, "あ");
    assert_eq!(buffer.cell(Position::new(1, 0)).unwrap().symbol, " ");
    assert_eq!(buffer.cell(Position::new(2, 0)).unwrap().symbol, "b");
    assert_eq!(buffer.cell(Position::new(2, 0)).unwrap().fg, Color::Red);
    assert_eq!(buffer.cell(Position::new(3, 0)).unwrap().symbol, ".");
}

#[test]
fn glyph_rows_clip_at_the_viewport_edge() {
    let mut buffer = Buffer::empty(Rect::new(2, 1, 3, 1));

    assert!(stamp_row(&mut buffer, "abcde", Style::new(), (-1, 0)));

    assert_eq!(row_symbols(&buffer, 1), "bcd");
    assert!(stamp_row(&mut buffer, "zz", Style::new(), (0, 1)));
    assert_eq!(row_symbols(&buffer, 1), "bcd", "a row below the viewport draws nothing");
}

#[test]
fn subcell_mode_defaults_to_halfblocks() {
    assert_eq!(SubcellMode::default(), SubcellMode::Halfblock);
}
