use plurimus::braille::BrailleGrid;
use plurimus::buffer::Buffer;
use plurimus::geometry::{Position, Rect};
use plurimus::grid::HalfblockGrid;
use plurimus::layers::RenderLayers;
use plurimus::raster2d::{
    block_width, draw_glyph, draw_glyphs, draw_halfblock_pixels, set_braille_pixels, Glyph,
    GlyphBlock, PlacedGlyph, PlacedPixels,
};
use plurimus::sprite2d::{resolve_pixels, PixelBlock};
use plurimus::style::{Color, Style};

fn row_symbols(buffer: &Buffer, y: u16) -> String {
    (buffer.area.x..buffer.area.x + buffer.area.width)
        .map(|x| buffer.cell(Position::new(x, y)).unwrap().symbol.clone())
        .collect()
}

fn frame(buffer: &Buffer) -> Vec<String> {
    (buffer.area.y..buffer.area.y + buffer.area.height).map(|y| row_symbols(buffer, y)).collect()
}

fn placed(rows: &[&str], anchor: (i32, i32)) -> PlacedGlyph {
    PlacedGlyph {
        layers: RenderLayers::default(),
        rows: rows.iter().map(|r| r.to_string()).collect(),
        style: Style::new(),
        anchor,
    }
}

#[test]
fn glyph_constructors_keep_their_text() {
    let glyph = Glyph::new("@").style(Style::new().fg(Color::Red));
    assert_eq!(glyph.symbol, "@");
    assert_eq!(glyph.style, Style::new().fg(Color::Red));

    let block = GlyphBlock::new("/-\\\n| |");
    assert_eq!(block.rows, vec!["/-\\", "| |"]);
    assert_eq!(block.style, Style::new());
}

#[test]
fn block_width_is_the_widest_row() {
    let rows = vec!["ab".to_string(), "苹果".to_string(), "".to_string()];
    assert_eq!(block_width(&rows), Some(4));
    assert_eq!(block_width(&[]), Some(0));
}

#[test]
fn glyph_blocks_stamp_centered_with_transparent_holes() {
    let mut buffer = Buffer::empty(Rect::new(0, 0, 7, 5));
    let glyphs = vec![placed(&["."], (3, 2)), placed(&["/-\\", "| |", "\\-/"], (3, 2))];

    draw_glyphs(&mut buffer, RenderLayers::default(), &glyphs);

    assert_eq!(frame(&buffer), vec!["       ", "  /-\\  ", "  |.|  ", "  \\-/  ", "       "]);
}

#[test]
fn glyph_blocks_clip_at_the_viewport_edge() {
    let mut buffer = Buffer::empty(Rect::new(0, 0, 5, 3));
    let rows: Vec<String> = vec!["abc".into(), "def".into(), "ghi".into()];

    assert!(draw_glyph(&mut buffer, &rows, Style::new(), (0, 0)));

    assert_eq!(frame(&buffer), vec!["ef   ", "hi   ", "     "]);
}

#[test]
fn wide_glyph_blocks_occupy_their_display_width() {
    let mut buffer = Buffer::empty(Rect::new(0, 0, 7, 3));
    let mut glyphs: Vec<PlacedGlyph> = (0..7).map(|x| placed(&["."], (x, 1))).collect();
    glyphs.push(placed(&["苹果"], (3, 1)));

    draw_glyphs(&mut buffer, RenderLayers::default(), &glyphs);

    assert_eq!(row_symbols(&buffer, 1), ".苹 果 ..");
}

/// Sprites draw back to front, so the higher `z` comes later.
#[test]
fn higher_z_glyph_wins_the_cell() {
    let mut buffer = Buffer::empty(Rect::new(0, 0, 5, 3));
    let glyphs = vec![placed(&["a"], (2, 1)), placed(&["b"], (2, 1))];

    draw_glyphs(&mut buffer, RenderLayers::default(), &glyphs);

    assert_eq!(row_symbols(&buffer, 1), "  b  ");
}

#[test]
fn render_layers_mask_glyphs_per_camera() {
    let mut shared = placed(&["@"], (1, 1));
    shared.layers = RenderLayers::layer(0).with(1);
    let default = placed(&["#"], (0, 1));
    let mut hidden = placed(&["!"], (2, 0));
    hidden.layers = RenderLayers::none();
    let glyphs = vec![shared, default, hidden];

    let mut first = Buffer::empty(Rect::new(0, 0, 4, 3));
    draw_glyphs(&mut first, RenderLayers::default(), &glyphs);
    let mut second = Buffer::empty(Rect::new(4, 0, 4, 3));
    draw_glyphs(&mut second, RenderLayers::layer(1), &glyphs);

    assert_eq!(frame(&first), vec!["    ", "#@  ", "    "]);
    assert_eq!(frame(&second), vec!["    ", " @  ", "    "]);
}

#[test]
fn unaddressable_glyphs_draw_nothing() {
    let mut buffer = Buffer::empty(Rect::new(0, 0, 3, 1));
    let rows: Vec<String> = vec!["abcd".into()];

    assert!(!draw_glyph(&mut buffer, &rows, Style::new(), (i32::MIN, 0)));
    assert_eq!(row_symbols(&buffer, 0), "   ");
}

const BRICK: [(char, Color); 2] = [('r', Color::Red), ('b', Color::Blue)];

fn pixel_block(text: &str, anchor: (i32, i32), cells: &mut Vec<Option<Color>>) -> PlacedPixels {
    let block = PixelBlock::new(text, BRICK.to_vec());
    let start = cells.len();
    let width = resolve_pixels(&block, cells);
    PlacedPixels {
        layers: RenderLayers::default(),
        start,
        end: cells.len(),
        width,
        height: block.rows.len(),
        anchor,
    }
}

fn at(buffer: &Buffer, x: u16, y: u16) -> (String, Color, Color) {
    let cell = buffer.cell(Position::new(x, y)).unwrap();
    (cell.symbol.clone(), cell.fg, cell.bg)
}

#[test]
fn pixel_blocks_stamp_centered_with_transparent_holes() {
    let mut cells = Vec::new();
    let blocks = vec![pixel_block("rbr\nb b\nrbr", (2, 2), &mut cells)];
    let mut buffer = Buffer::empty(Rect::new(0, 0, 5, 2));
    let mut grid = HalfblockGrid::new(Rect::zero());

    draw_halfblock_pixels(RenderLayers::default(), &blocks, &cells, &mut grid, &mut buffer);

    assert_eq!(at(&buffer, 0, 0).0, " ");
    assert_eq!(at(&buffer, 1, 0), ("▄".to_string(), Color::Red, Color::Reset));
    assert_eq!(at(&buffer, 2, 0), ("▄".to_string(), Color::Blue, Color::Reset));
    assert_eq!(at(&buffer, 1, 1), ("▀".to_string(), Color::Blue, Color::Red));
    assert_eq!(at(&buffer, 2, 1), ("▄".to_string(), Color::Blue, Color::Reset));
    assert_eq!(at(&buffer, 3, 1), ("▀".to_string(), Color::Blue, Color::Red));
    assert_eq!(at(&buffer, 4, 1).0, " ");
}

/// Sprites draw back to front, so the higher `z` comes later; both
/// pixels project to the lower half of the middle cell.
#[test]
fn higher_z_pixel_wins_the_subcell() {
    let mut cells = Vec::new();
    let blocks = vec![pixel_block("r", (1, 1), &mut cells), pixel_block("b", (1, 1), &mut cells)];
    let mut buffer = Buffer::empty(Rect::new(0, 0, 3, 1));
    let mut grid = HalfblockGrid::new(Rect::zero());

    draw_halfblock_pixels(RenderLayers::default(), &blocks, &cells, &mut grid, &mut buffer);

    assert_eq!(at(&buffer, 1, 0), ("▄".to_string(), Color::Blue, Color::Reset));
}

#[test]
fn pixel_blocks_clip_at_the_viewport_edge() {
    let mut cells = Vec::new();
    let blocks = vec![pixel_block("rrrr\nrrrr\nrrrr\nrrrr", (0, 0), &mut cells)];
    let mut buffer = Buffer::empty(Rect::new(0, 0, 4, 2));
    let mut grid = HalfblockGrid::new(Rect::zero());

    draw_halfblock_pixels(RenderLayers::default(), &blocks, &cells, &mut grid, &mut buffer);

    assert_eq!(at(&buffer, 0, 0), ("▀".to_string(), Color::Red, Color::Red));
    assert_eq!(at(&buffer, 1, 0), ("▀".to_string(), Color::Red, Color::Red));
    assert_eq!(at(&buffer, 2, 0).0, " ");
    assert_eq!(at(&buffer, 0, 1).0, " ");
}

#[test]
fn masked_pixel_blocks_draw_nothing() {
    let mut cells = Vec::new();
    let mut block = pixel_block("r", (1, 0), &mut cells);
    block.layers = RenderLayers::layer(2);
    let mut buffer = Buffer::empty(Rect::new(0, 0, 3, 1));
    let mut grid = HalfblockGrid::new(Rect::zero());

    draw_halfblock_pixels(RenderLayers::default(), &[block], &cells, &mut grid, &mut buffer);

    assert_eq!(at(&buffer, 1, 0).0, " ");
}

#[test]
fn braille_cameras_stamp_pixel_blocks_at_dot_resolution() {
    let mut cells = Vec::new();
    let blocks = vec![pixel_block("rrrr\nr  r\nr  r\nrrrr", (4, 2), &mut cells)];
    let area = Rect::new(0, 0, 4, 1);
    let mut buffer = Buffer::empty(area);
    let mut grid = BrailleGrid::new(Rect::zero());

    set_braille_pixels(area, RenderLayers::default(), &blocks, &cells, &mut grid);
    let colors: Vec<Option<Color>> = (0..grid.cell_count())
        .map(|i| grid.cell_samples(i).last().copied())
        .collect();
    grid.resolve_into(&mut buffer, &colors);

    assert_eq!(row_symbols(&buffer, 0), " \u{28cf}\u{28f9} ");
}

fn single_pixel(color: Color, anchor: (i32, i32), layers: RenderLayers, cells: &mut Vec<Option<Color>>) -> PlacedPixels {
    let start = cells.len();
    cells.push(Some(color));
    PlacedPixels { layers, start, end: start + 1, width: 1, height: 1, anchor }
}

#[test]
fn glyphs_draw_over_pixels() {
    // A red pixel and an `X` at the world origin of a 3x1 view project to
    // the lower half of the middle cell and to the middle cell.
    let mut cells = Vec::new();
    let pixels = vec![single_pixel(Color::Red, (1, 1), RenderLayers::default(), &mut cells)];
    let glyphs = vec![PlacedGlyph {
        layers: RenderLayers::default(),
        rows: vec!["X".to_string()],
        style: Style::new().fg(Color::White),
        anchor: (1, 0),
    }];
    let mut buffer = Buffer::empty(Rect::new(0, 0, 3, 1));
    let mut grid = HalfblockGrid::new(Rect::zero());

    draw_halfblock_pixels(RenderLayers::default(), &pixels, &cells, &mut grid, &mut buffer);
    draw_glyphs(&mut buffer, RenderLayers::default(), &glyphs);

    assert_eq!(at(&buffer, 1, 0).0, "X");
    assert_eq!(at(&buffer, 1, 0).1, Color::White);
}

#[test]
fn render_layers_mask_entities_per_camera() {
    // Two 4x3 cameras side by side, the second on layer 1 only; anchors are
    // the projections of the world positions into either view.
    let mut at_glyph = placed(&["@"], (2, 1));
    at_glyph.layers = RenderLayers::layer(0).with(1);
    let hash = placed(&["#"], (1, 1));
    let mut bang = placed(&["!"], (3, 1));
    bang.layers = RenderLayers::none();
    let glyphs = vec![at_glyph, hash, bang];

    let mut first = Buffer::empty(Rect::new(0, 0, 4, 3));
    let mut cells = Vec::new();
    let pixels = vec![single_pixel(Color::Red, (3, 3), RenderLayers::default(), &mut cells)];
    let mut grid = HalfblockGrid::new(Rect::zero());
    draw_halfblock_pixels(RenderLayers::default(), &pixels, &cells, &mut grid, &mut first);
    draw_glyphs(&mut first, RenderLayers::default(), &glyphs);

    let mut second = Buffer::empty(Rect::new(4, 0, 4, 3));
    let mut cells = Vec::new();
    let pixels = vec![single_pixel(Color::Red, (7, 3), RenderLayers::default(), &mut cells)];
    draw_halfblock_pixels(RenderLayers::layer(1), &pixels, &cells, &mut grid, &mut second);
    draw_glyphs(&mut second, RenderLayers::layer(1), &glyphs);

    assert_eq!(frame(&first), vec!["    ", " #@▄", "    "]);
    assert_eq!(frame(&second), vec!["    ", "  @ ", "    "]);
}

#[test]
fn pixels_land_in_upper_and_lower_halves() {
    // Red, blue and green pixels project into a 5x2 view at the upper half
    // of (0, 0), the lower half of (2, 0) and the upper half of (3, 1).
    let mut cells = Vec::new();
    let d = RenderLayers::default();
    let pixels = vec![
        single_pixel(Color::Red, (0, 0), d, &mut cells),
        single_pixel(Color::Blue, (2, 1), d, &mut cells),
        single_pixel(Color::Green, (3, 2), d, &mut cells),
    ];
    let mut buffer = Buffer::empty(Rect::new(0, 0, 5, 2));
    let mut grid = HalfblockGrid::new(Rect::zero());

    draw_halfblock_pixels(d, &pixels, &cells, &mut grid, &mut buffer);

    assert_eq!(at(&buffer, 0, 0), ("▀".to_string(), Color::Red, Color::Reset));
    assert_eq!(at(&buffer, 2, 0), ("▄".to_string(), Color::Blue, Color::Reset));
    assert_eq!(at(&buffer, 3, 1), ("▀".to_string(), Color::Green, Color::Reset));
    assert_eq!(row_symbols(&buffer, 0), "▀ ▄  ");
}

#[test]
fn pixels_and_pixel_blocks_share_one_z_order() {
    // Back to front: a green pixel, a red block over the whole upper row,
    // then a green pixel on its left end.
    let mut cells = Vec::new();
    let d = RenderLayers::default();
    let mut blocks = vec![single_pixel(Color::Green, (1, 0), d, &mut cells)];
    blocks.push(pixel_block("rrr", (1, 0), &mut cells));
    blocks.push(single_pixel(Color::Green, (0, 0), d, &mut cells));
    let mut buffer = Buffer::empty(Rect::new(0, 0, 3, 1));
    let mut grid = HalfblockGrid::new(Rect::zero());

    draw_halfblock_pixels(d, &blocks, &cells, &mut grid, &mut buffer);

    assert_eq!(at(&buffer, 0, 0).1, Color::Green);
    assert_eq!(at(&buffer, 1, 0).1, Color::Red);
    assert_eq!(at(&buffer, 2, 0).1, Color::Red);
}
