use plurimus::blit::{blit_braille, blit_halfblocks, letterbox, PixelGrid};
use plurimus::braille::BrailleGrid;
use plurimus::buffer::Buffer;
use plurimus::geometry::{Position, Rect};
use plurimus::grid::HalfblockGrid;
use plurimus::style::{Color, Style};

const RED: u32 = 0xff_00_00;
const GREEN: u32 = 0x00_ff_00;
const BLUE: u32 = 0x00_00_ff;
const WHITE: u32 = 0xff_ff_ff;

fn at(buffer: &Buffer, x: u16, y: u16) -> &plurimus::buffer::Cell {
    buffer.cell(Position::new(x, y)).unwrap()
}

fn blit_into(buffer: &mut Buffer, pixels: &PixelGrid<'_>) {
    let mut grid = HalfblockGrid::new(buffer.area);
    let fit = letterbox((pixels.width(), pixels.height()), grid.subcell_area());
    blit_halfblocks(&mut grid, pixels, fit);
    grid.resolve_into(buffer);
}

/// Each cell's color as the plain average of its samples, the last
/// non-RGB sample where there is no RGB one.
fn plain_colors(grid: &BrailleGrid) -> Vec<Option<Color>> {
    (0..grid.cell_count())
        .map(|i| {
            let samples = grid.cell_samples(i);
            let rgb: Vec<(u8, u8, u8)> = samples
                .iter()
                .filter_map(|c| match c {
                    Color::Rgb(r, g, b) => Some((*r, *g, *b)),
                    _ => None,
                })
                .collect();
            if rgb.is_empty() {
                samples.iter().rev().copied().next()
            } else {
                let n = rgb.len() as u32;
                let sum = rgb.iter().fold((0u32, 0u32, 0u32), |a, c| {
                    (a.0 + c.0 as u32, a.1 + c.1 as u32, a.2 + c.2 as u32)
                });
                Some(Color::Rgb((sum.0 / n) as u8, (sum.1 / n) as u8, (sum.2 / n) as u8))
            }
        })
        .collect()
}

#[test]
fn write_rgba8_copies_rgba_sources_with_alpha_intact() {
    let pixels: [u8; 8] = [255, 0, 0, 255, 0, 0, 255, 0];
    let grid = PixelGrid::rgba8(&pixels, 1, 2);
    let mut out = Vec::new();

    grid.write_rgba8(&mut out);

    assert_eq!(out, pixels);
}

#[test]
fn write_rgba8_makes_xrgb_sources_opaque() {
    let pixels = [0xff_12_34_56u32, RED];
    let grid = PixelGrid::xrgb32(&pixels, 2, 1);
    let mut out = Vec::new();

    grid.write_rgba8(&mut out);

    assert_eq!(out, [0x12, 0x34, 0x56, 255, 255, 0, 0, 255]);
}

#[test]
fn write_rgba8_reuses_the_buffer_across_sizes() {
    let large = [WHITE; 4];
    let small = [GREEN];
    let mut out = Vec::new();

    PixelGrid::xrgb32(&large, 2, 2).write_rgba8(&mut out);
    assert_eq!(out.len(), 16);
    PixelGrid::xrgb32(&small, 1, 1).write_rgba8(&mut out);

    assert_eq!(out, [0, 255, 0, 255]);
}

#[test]
fn quadrants_map_to_halfblock_cells() {
    let pixels = [RED, GREEN, BLUE, WHITE];
    let mut buffer = Buffer::empty(Rect::new(0, 0, 2, 1));

    blit_into(&mut buffer, &PixelGrid::xrgb32(&pixels, 2, 2));

    let left = at(&buffer, 0, 0);
    assert_eq!(left.symbol, "▀");
    assert_eq!(left.fg, Color::Rgb(255, 0, 0));
    assert_eq!(left.bg, Color::Rgb(0, 0, 255));
    let right = at(&buffer, 1, 0);
    assert_eq!(right.fg, Color::Rgb(0, 255, 0));
    assert_eq!(right.bg, Color::Rgb(255, 255, 255));
}

#[test]
fn cells_outside_the_fit_stay_untouched() {
    let pixels = [WHITE, WHITE, WHITE, WHITE];
    let mut buffer = Buffer::empty(Rect::new(0, 0, 4, 1));

    blit_into(&mut buffer, &PixelGrid::xrgb32(&pixels, 2, 2));

    let bar = at(&buffer, 0, 0);
    assert_eq!(bar.symbol, " ");
    assert_eq!(bar.bg, Color::Reset);
    assert_eq!(at(&buffer, 1, 0).fg, Color::Rgb(255, 255, 255));
    assert_eq!(at(&buffer, 3, 0).bg, Color::Reset);
}

#[test]
fn offset_areas_use_absolute_coordinates() {
    let pixels = [GREEN];
    let area = Rect::new(3, 2, 1, 1);
    let mut buffer = Buffer::empty(area);

    blit_into(&mut buffer, &PixelGrid::xrgb32(&pixels, 1, 1));

    assert_eq!(at(&buffer, 3, 2).fg, Color::Rgb(0, 255, 0));
}

#[test]
fn transparent_rgba_pixels_leave_their_subcells_unset() {
    let pixels: [u8; 8] = [255, 0, 0, 255, 0, 0, 255, 0];
    let mut buffer = Buffer::empty(Rect::new(0, 0, 1, 1));

    blit_into(&mut buffer, &PixelGrid::rgba8(&pixels, 1, 2));

    let cell = at(&buffer, 0, 0);
    assert_eq!(cell.symbol, "▀");
    assert_eq!(cell.fg, Color::Rgb(255, 0, 0));
    assert_eq!(cell.bg, Color::Reset);
}

#[test]
fn xrgb_high_byte_is_ignored() {
    let pixels = [0xff_12_34_56u32];
    let mut buffer = Buffer::empty(Rect::new(0, 0, 1, 1));

    blit_into(&mut buffer, &PixelGrid::xrgb32(&pixels, 1, 1));

    assert_eq!(at(&buffer, 0, 0).fg, Color::Rgb(0x12, 0x34, 0x56));
}

#[test]
fn blit_braille_fills_dots_and_skips_transparent_pixels() {
    let mut pixels = [255u8; 2 * 4 * 4];
    pixels[3] = 0;
    let source = PixelGrid::rgba8(&pixels, 2, 4);
    let mut grid = BrailleGrid::new(Rect::new(0, 0, 1, 1));
    let mut buffer = Buffer::empty(Rect::new(0, 0, 1, 1));

    let fit = grid.subcell_area();
    blit_braille(&mut grid, &source, fit);
    let colors = plain_colors(&grid);
    grid.resolve_into(&mut buffer, &colors);

    assert_eq!(at(&buffer, 0, 0).symbol, "⣾");
}

#[test]
fn letterbox_fits_wide_source_by_width() {
    assert_eq!(letterbox((4, 2), Rect::new(0, 0, 4, 4)), Rect::new(0, 1, 4, 2));
}

#[test]
fn letterbox_fits_tall_source_by_height() {
    assert_eq!(letterbox((2, 2), Rect::new(0, 0, 10, 8)), Rect::new(1, 0, 8, 8));
}

#[test]
fn letterbox_offsets_by_the_target_origin() {
    assert_eq!(letterbox((2, 2), Rect::new(3, 4, 10, 8)), Rect::new(4, 4, 8, 8));
}

#[test]
fn letterbox_of_empty_input_is_empty() {
    assert_eq!(letterbox((0, 0), Rect::new(0, 0, 10, 8)), Rect::zero());
}

#[test]
fn both_halves_resolve_to_fg_bg_pair() {
    let area = Rect::new(2, 1, 3, 2);
    let mut grid = HalfblockGrid::new(area);
    grid.set(3, 2, Color::Red);
    grid.set(3, 3, Color::Blue);
    let mut buffer = Buffer::empty(area);

    grid.resolve_into(&mut buffer);

    let cell = at(&buffer, 3, 1);
    assert_eq!(cell.symbol, "▀");
    assert_eq!(cell.fg, Color::Red);
    assert_eq!(cell.bg, Color::Blue);
}

#[test]
fn single_half_preserves_cell_background() {
    let area = Rect::new(0, 0, 2, 1);
    let mut buffer = Buffer::empty(area);
    buffer.set_stringn(0, 0, "  ", usize::MAX, Style::new().bg(Color::Green));
    let mut grid = HalfblockGrid::new(area);
    grid.set(0, 0, Color::Red);
    grid.set(1, 1, Color::Blue);

    grid.resolve_into(&mut buffer);

    let upper_only = at(&buffer, 0, 0);
    assert_eq!(upper_only.symbol, "▀");
    assert_eq!(upper_only.fg, Color::Red);
    assert_eq!(upper_only.bg, Color::Green);
    let lower_only = at(&buffer, 1, 0);
    assert_eq!(lower_only.symbol, "▄");
    assert_eq!(lower_only.fg, Color::Blue);
    assert_eq!(lower_only.bg, Color::Green);
}

#[test]
fn reset_clears_stale_content_and_refits_the_area() {
    let mut grid = HalfblockGrid::new(Rect::new(0, 0, 1, 1));
    grid.set(0, 0, Color::Red);

    grid.reset(Rect::new(0, 0, 2, 1));

    let mut buffer = Buffer::empty(Rect::new(0, 0, 2, 1));
    grid.resolve_into(&mut buffer);
    assert!(buffer.content.iter().all(|cell| cell.symbol == " "));
    grid.set(1, 0, Color::Blue);
    grid.resolve_into(&mut buffer);
    let cell = at(&buffer, 1, 0);
    assert_eq!(cell.symbol, "▀");
    assert_eq!(cell.fg, Color::Blue);
}

#[test]
fn out_of_area_sets_are_ignored() {
    let area = Rect::new(1, 1, 2, 1);
    let mut grid = HalfblockGrid::new(area);
    grid.set(0, 2, Color::Red);
    grid.set(3, 2, Color::Red);
    grid.set(1, 0, Color::Red);
    grid.set(1, 4, Color::Red);
    let mut buffer = Buffer::empty(area);

    grid.resolve_into(&mut buffer);

    assert!(buffer.content.iter().all(|cell| cell.symbol == " "));
}

#[test]
fn dot_positions_map_to_the_braille_bit_layout() {
    let area = Rect::new(0, 0, 3, 1);
    let mut grid = BrailleGrid::new(area);
    grid.set(0, 0, Color::White);
    grid.set(3, 3, Color::White);
    for sub_y in 0..4 {
        grid.set(4, sub_y, Color::White);
        grid.set(5, sub_y, Color::White);
    }
    let mut buffer = Buffer::empty(area);

    let colors = plain_colors(&grid);
    grid.resolve_into(&mut buffer, &colors);

    assert_eq!(at(&buffer, 0, 0).symbol, "⠁");
    assert_eq!(at(&buffer, 1, 0).symbol, "⢀");
    assert_eq!(at(&buffer, 2, 0).symbol, "⣿");
}

#[test]
fn non_rgb_colors_fall_back_to_last_write() {
    let area = Rect::new(0, 0, 1, 1);
    let mut grid = BrailleGrid::new(area);
    grid.set(0, 0, Color::Green);
    grid.set(1, 0, Color::Magenta);
    assert_eq!(grid.cell_samples(0), &vec![Color::Green, Color::Magenta]);
    let mut buffer = Buffer::empty(area);

    let colors = plain_colors(&grid);
    grid.resolve_into(&mut buffer, &colors);

    assert_eq!(at(&buffer, 0, 0).fg, Color::Magenta);
}

#[test]
fn empty_cells_and_backgrounds_stay_untouched() {
    let area = Rect::new(0, 0, 2, 1);
    let mut buffer = Buffer::empty(area);
    buffer.set_stringn(0, 0, "  ", usize::MAX, Style::new().bg(Color::Green));
    let mut grid = BrailleGrid::new(area);
    grid.set(0, 0, Color::Red);

    let colors = plain_colors(&grid);
    grid.resolve_into(&mut buffer, &colors);

    let drawn = at(&buffer, 0, 0);
    assert_eq!(drawn.symbol, "⠁");
    assert_eq!(drawn.bg, Color::Green);
    assert_eq!(at(&buffer, 1, 0).symbol, " ");
}

#[test]
fn out_of_area_sets_are_ignored_and_offsets_are_absolute() {
    let area = Rect::new(1, 1, 1, 1);
    let mut grid = BrailleGrid::new(area);
    grid.set(0, 4, Color::Red);
    grid.set(4, 4, Color::Red);
    grid.set(2, 3, Color::Red);
    grid.set(2, 8, Color::Red);
    grid.set(2, 4, Color::Blue);
    let mut buffer = Buffer::empty(area);

    let colors = plain_colors(&grid);
    grid.resolve_into(&mut buffer, &colors);

    let cell = at(&buffer, 1, 1);
    assert_eq!(cell.symbol, "⠁");
    assert_eq!(cell.fg, Color::Blue);
}

#[test]
fn reset_clears_stale_dots_and_refits_the_area() {
    let mut grid = BrailleGrid::new(Rect::new(0, 0, 1, 1));
    grid.set(0, 0, Color::Red);

    grid.reset(Rect::new(0, 0, 2, 1));

    let mut buffer = Buffer::empty(Rect::new(0, 0, 2, 1));
    let colors = plain_colors(&grid);
    grid.resolve_into(&mut buffer, &colors);
    assert!(buffer.content.iter().all(|cell| cell.symbol == " "));
    grid.set(2, 0, Color::Blue);
    let colors = plain_colors(&grid);
    grid.resolve_into(&mut buffer, &colors);
    assert_eq!(at(&buffer, 1, 0).symbol, "⠁");
}

#[test]
fn a_cell_without_a_color_stays_untouched() {
    let area = Rect::new(0, 0, 1, 1);
    let mut grid = BrailleGrid::new(area);
    grid.set(0, 0, Color::Red);
    let mut buffer = Buffer::empty(area);

    grid.resolve_into(&mut buffer, &[None]);

    assert_eq!(at(&buffer, 0, 0).symbol, " ");
}

#[test]
fn letterbox_into_a_target_reaching_past_u16() {
    let target = Rect { x: 65000, y: 0, width: 1000, height: 1000 };
    assert_eq!(letterbox((1, 100), target), Rect { x: 65495, y: 0, width: 10, height: 1000 });
}
