use plurimus::braille::BrailleGrid;
use plurimus::buffer::{Buffer, Cell};
use plurimus::convert::{blit_braille_frame, convert_halfblocks, draw_ramp};
use plurimus::render3d::{cell_source_coords, pixel_at};
use plurimus::geometry::{Position, Rect};
use plurimus::grid::HalfblockGrid;
use plurimus::style::Color;

fn rgba_grid(pixels: &[[u8; 4]]) -> Vec<u8> {
    pixels.iter().flatten().copied().collect()
}

fn at(buffer: &Buffer, x: u16, y: u16) -> &Cell {
    buffer.cell(Position::new(x, y)).unwrap()
}

fn halfblocks(pixels: &[u8], size: (u32, u32), buffer: &mut Buffer, dest: Rect) {
    let mut grid = HalfblockGrid::new(Rect::zero());
    convert_halfblocks(pixels, size, &mut grid, buffer, dest);
}

fn full(pixels: &[u8], size: (u32, u32), buffer: &mut Buffer) {
    let dest = buffer.area;
    halfblocks(pixels, size, buffer, dest);
}

#[test]
fn halfblocks_map_pixel_pairs_to_fg_bg() {
    let pixels = rgba_grid(&[[255, 0, 0, 255], [0, 0, 255, 255]]);
    let mut buffer = Buffer::empty(Rect::new(0, 0, 1, 1));

    full(&pixels, (1, 2), &mut buffer);

    let cell = at(&buffer, 0, 0);
    assert_eq!(cell.symbol, "▀");
    assert_eq!(cell.fg, Color::Rgb(255, 0, 0));
    assert_eq!(cell.bg, Color::Rgb(0, 0, 255));
}

#[test]
fn transparent_pixels_leave_cells_untouched() {
    let pixels = rgba_grid(&[[255, 0, 0, 0], [0, 0, 255, 0]]);
    let mut buffer = Buffer::empty(Rect::new(0, 0, 1, 1));

    full(&pixels, (1, 2), &mut buffer);

    assert_eq!(at(&buffer, 0, 0).symbol, " ");
}

#[test]
fn letterboxed_dest_leaves_the_bars_untouched() {
    let pixels = rgba_grid(&[[255, 0, 0, 255], [0, 0, 255, 255]]);
    let mut buffer = Buffer::empty(Rect::new(0, 0, 3, 1));

    halfblocks(&pixels, (1, 2), &mut buffer, Rect::new(1, 0, 1, 1));

    assert_eq!(at(&buffer, 0, 0).symbol, " ");
    assert_eq!(at(&buffer, 1, 0).symbol, "▀");
    assert_eq!(at(&buffer, 2, 0).symbol, " ");
}

#[test]
fn oversized_frames_scale_down_to_the_buffer_area() {
    let pixels = vec![200; 8 * 4 * 4];
    let mut buffer = Buffer::empty(Rect::new(0, 0, 2, 1));

    full(&pixels, (8, 4), &mut buffer);

    let cell = at(&buffer, 1, 0);
    assert_eq!(cell.symbol, "▀");
    assert_eq!(cell.fg, Color::Rgb(200, 200, 200));
}

#[test]
fn undersized_frames_scale_up_to_the_buffer_area() {
    let pixels = rgba_grid(&[[255, 0, 0, 255], [0, 0, 255, 255]]);
    let mut buffer = Buffer::empty(Rect::new(0, 0, 2, 1));

    full(&pixels, (1, 2), &mut buffer);

    for x in 0..2 {
        let cell = at(&buffer, x, 0);
        assert_eq!(cell.fg, Color::Rgb(255, 0, 0));
        assert_eq!(cell.bg, Color::Rgb(0, 0, 255));
    }
}

#[test]
fn an_empty_frame_draws_nothing() {
    let mut buffer = Buffer::empty(Rect::new(0, 0, 2, 1));
    buffer.fill_at(1, 0, Color::Blue);

    full(&[], (0, 2), &mut buffer);

    assert_eq!(at(&buffer, 0, 0).symbol, " ");
    assert_eq!(at(&buffer, 0, 0).bg, Color::Reset);
    assert_eq!(at(&buffer, 1, 0).bg, Color::Blue);
}

#[test]
fn one_opaque_half_draws_over_the_existing_background() {
    let pixels = rgba_grid(&[[0, 0, 0, 0], [0, 255, 0, 255]]);
    let mut buffer = Buffer::empty(Rect::new(0, 0, 1, 1));
    buffer.fill_at(0, 0, Color::Blue);

    full(&pixels, (1, 2), &mut buffer);

    let cell = at(&buffer, 0, 0);
    assert_eq!(cell.symbol, "▄");
    assert_eq!(cell.fg, Color::Rgb(0, 255, 0));
    assert_eq!(cell.bg, Color::Blue);
}

/// Each cell's color as the plain average of its RGB samples.
fn plain_colors(grid: &BrailleGrid) -> Vec<Option<Color>> {
    (0..grid.cell_count())
        .map(|i| {
            let samples = grid.cell_samples(i);
            if samples.is_empty() {
                return None;
            }
            let n = samples.len() as u32;
            let mut sum = (0u32, 0u32, 0u32);
            for sample in samples {
                if let Color::Rgb(r, g, b) = sample {
                    sum = (sum.0 + *r as u32, sum.1 + *g as u32, sum.2 + *b as u32);
                }
            }
            Some(Color::Rgb((sum.0 / n) as u8, (sum.1 / n) as u8, (sum.2 / n) as u8))
        })
        .collect()
}

#[test]
fn braille_maps_dots_and_averages_their_color() {
    let mut pixels = vec![[0u8, 0, 255, 255]; 2 * 4];
    pixels[0] = [255, 0, 0, 255];
    let pixels = rgba_grid(&pixels);
    let mut buffer = Buffer::empty(Rect::new(0, 0, 1, 1));
    let mut grid = BrailleGrid::new(Rect::zero());

    assert!(blit_braille_frame(&pixels, (2, 4), &mut grid, buffer.area));
    let colors = plain_colors(&grid);
    grid.resolve_into(&mut buffer, &colors);

    let cell = at(&buffer, 0, 0);
    assert_eq!(cell.symbol, "⣿");
    assert_eq!(cell.bg, Color::Reset);
    let Color::Rgb(red, _, blue) = cell.fg else {
        panic!("expected an averaged rgb foreground, got {:?}", cell.fg);
    };
    assert!(blue > red);
}

#[test]
fn braille_of_an_empty_frame_is_not_ready() {
    let mut grid = BrailleGrid::new(Rect::new(0, 0, 1, 1));

    assert!(!blit_braille_frame(&[], (2, 0), &mut grid, Rect::new(0, 0, 3, 3)));
    assert_eq!(grid.cell_count(), 1);
}

const SHADING: [char; 5] = [' ', '░', '▒', '▓', '█'];

#[test]
fn luminance_skips_fully_transparent_cells_only() {
    let pixels = rgba_grid(&[[0, 0, 0, 0], [255, 255, 255, 255], [0, 0, 0, 0], [0, 0, 0, 0]]);
    let mut buffer = Buffer::empty(Rect::new(0, 0, 2, 1));
    buffer.put_fg_symbol(0, 0, &"K".to_string(), Color::Reset);
    let dest = buffer.area;

    draw_ramp(&pixels, (2, 2), dest, &SHADING, &[4, 4], &[Color::White, Color::White], &mut buffer);

    assert_eq!(at(&buffer, 0, 0).symbol, "K");
    assert_ne!(at(&buffer, 1, 0).symbol, " ");
}

#[test]
fn depth_skips_fully_transparent_cells() {
    let pixels = rgba_grid(&[[255, 0, 0, 0], [0, 0, 255, 0]]);
    let mut buffer = Buffer::empty(Rect::new(0, 0, 1, 1));
    let dest = buffer.area;

    draw_ramp(&pixels, (1, 2), dest, &SHADING, &[4], &[Color::Red], &mut buffer);

    assert_eq!(at(&buffer, 0, 0).symbol, " ");
}

#[test]
fn ramp_cells_take_their_level_and_color() {
    let pixels = rgba_grid(&[[9, 9, 9, 255]; 4]);
    let mut buffer = Buffer::empty(Rect::new(0, 0, 2, 1));
    let dest = buffer.area;

    draw_ramp(
        &pixels,
        (2, 2),
        dest,
        &SHADING,
        &[4, 1],
        &[Color::Rgb(255, 0, 0), Color::Blue],
        &mut buffer,
    );

    assert_eq!(at(&buffer, 0, 0).symbol, "█");
    assert_eq!(at(&buffer, 0, 0).fg, Color::Rgb(255, 0, 0));
    assert_eq!(at(&buffer, 1, 0).symbol, "░");
    assert_eq!(at(&buffer, 1, 0).fg, Color::Blue);
}

#[test]
fn oversized_luminance_frames_scale_down_instead_of_cropping() {
    let mut pixels = vec![[3u8, 3, 3, 255]; 4 * 4];
    for row in 0..4 {
        pixels[row * 4 + 2] = [255, 255, 255, 255];
        pixels[row * 4 + 3] = [255, 255, 255, 255];
    }
    let pixels = rgba_grid(&pixels);
    let mut buffer = Buffer::empty(Rect::new(0, 0, 2, 1));
    let dest = buffer.area;
    let levels: Vec<usize> = (0..2u16)
        .map(|column| {
            let (x, upper, _) = cell_source_coords((4, 4), dest, (column, 0));
            if pixel_at(&pixels, 4, x, upper)[0] > 128 {
                SHADING.len() - 1
            } else {
                0
            }
        })
        .collect();

    draw_ramp(&pixels, (4, 4), dest, &SHADING, &levels, &[Color::White, Color::White], &mut buffer);

    assert_eq!(at(&buffer, 0, 0).symbol, " ");
    assert_eq!(at(&buffer, 1, 0).symbol, "█");
}
