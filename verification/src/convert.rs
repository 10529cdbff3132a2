//! Pixel-to-cell conversion of a read-back 3d frame.
//!
//! A camera's frame arrives as tightly packed RGBA8 pixels and is drawn
//! into a destination rect of the camera's buffer: the whole buffer
//! normally, a centered sub-rect when letterboxing. The frame is stretched
//! over the rect's subcells by nearest-neighbor sampling, whatever its
//! resolution. Fully transparent pixels touch nothing, and cells outside
//! the rect are never written.

use vstd::prelude::*;

use crate::blit::{
    blit_braille, blit_halfblocks, braille_blitted, lemma_sample_in_range, sample_x, sample_y,
    PixelGrid,
};
use crate::braille::{col_pos, row_pos, BrailleGrid};
use crate::buffer::{col_of, in_area, index_in, lemma_area_fits, row_of, same_cell, Buffer, CellView};
use crate::compositor::sound;
use crate::draw::{lemma_put_same, lemma_region_ends, lemma_region_step, region_map, with_fg, with_symbol};
use crate::geometry::Rect;
use crate::grid::{halves_drawn, HalfblockGrid};
use crate::render3d::{cell_source_coords, cell_source_spec, pixel_at};
use crate::strings::string_of_char;
use crate::style::Color;

verus! {

/// The color of pixel `(x, y)` of a tightly packed RGBA8 frame `width`
/// pixels wide; `None` where the pixel is fully transparent.
pub open spec fn rgba_pixel(pixels: Seq<u8>, width: int, x: int, y: int) -> Option<Color> {
    let i = y * width + x;
    if pixels[4 * i + 3] == 0 {
        None
    } else {
        Some(Color::Rgb(pixels[4 * i], pixels[4 * i + 1], pixels[4 * i + 2]))
    }
}

/// `dest` in halfblock subcell coordinates: cell columns, half rows.
pub open spec fn half_rows(dest: Rect) -> Rect {
    Rect { x: dest.x, y: (2 * dest.y) as u16, width: dest.width, height: (2 * dest.height) as u16 }
}

/// The pixel a halfblock conversion of a `size` frame into `dest` shows
/// at subcell `(x, sub_y)`: the frame stretched over `dest`'s half rows,
/// nearest neighbor.
pub open spec fn frame_half(pixels: Seq<u8>, size: (u32, u32), dest: Rect, x: int, sub_y: int) -> Option<
    Color,
> {
    let fit = half_rows(dest);
    rgba_pixel(
        pixels,
        size.0 as int,
        sample_x(size.0 as int, fit, x - fit.x),
        sample_y(size.1 as int, fit, sub_y - fit.y),
    )
}

/// Whether cell `(x, y)` lies in `dest`.
pub open spec fn in_dest(dest: Rect, x: int, y: int) -> bool {
    &&& dest.x <= x < dest.x + dest.width
    &&& dest.y <= y < dest.y + dest.height
}

/// Draws a `size` RGBA8 frame into the `dest` cells of `buffer` as half
/// blocks, two vertically stacked pixels per cell: a cell whose two
/// samples are both opaque becomes `▀` upper-over-lower, a cell with one
/// opaque sample draws that half over the cell's background, and a cell
/// whose samples are both fully transparent is left as it was. An empty
/// frame draws nothing. `grid` is scratch space reused across calls.
pub fn convert_halfblocks(
    pixels: &[u8],
    size: (u32, u32),
    grid: &mut HalfblockGrid,
    buffer: &mut Buffer,
    dest: Rect,
)
    requires
        size.0 * size.1 * 4 <= pixels@.len(),
        2 * (dest.y + dest.height) <= u16::MAX,
        dest.x + dest.width <= u16::MAX,
        dest.width * dest.height * 2 <= usize::MAX,
        dest.width * size.0 <= usize::MAX,
        2 * dest.height * size.1 <= usize::MAX,
        old(buffer).wf(),
    ensures
        final(buffer).wf(),
        final(buffer).area == old(buffer).area,
        forall|i: int|
            0 <= i < final(buffer).content@.len() ==> {
                let x = col_of(final(buffer).area, i);
                let y = row_of(final(buffer).area, i);
                if size.0 > 0 && size.1 > 0 && in_dest(dest, x, y) {
                    halves_drawn(
                        old(buffer).content@[i],
                        frame_half(pixels@, size, dest, x, 2 * y),
                        frame_half(pixels@, size, dest, x, 2 * y + 1),
                        #[trigger] final(buffer).content@[i],
                    )
                } else {
                    same_cell(final(buffer).content@[i], old(buffer).content@[i])
                }
            },
        size.0 > 0 && size.1 > 0 ==> final(grid).wf() && final(grid).cells() == dest,
{
    if size.0 == 0 || size.1 == 0 {
        return;
    }
    let width = size.0 as usize;
    let height = size.1 as usize;
    let source = PixelGrid::rgba8(pixels, width, height);
    grid.reset(dest);
    let fit = grid.subcell_area();
    assert(fit == half_rows(dest));
    blit_halfblocks(grid, &source, fit);
    let ghost blitted = *grid;
    grid.resolve_into(buffer);
    proof {
        assert forall|x: int, sub_y: int| #[trigger]
            blitted.in_grid(x, sub_y) implies blitted.point(x, sub_y) == frame_half(
            pixels@,
            size,
            dest,
            x,
            sub_y,
        ) by {
            let sx = sample_x(width as int, fit, x - fit.x);
            let sy = sample_y(height as int, fit, sub_y - fit.y);
            lemma_sample_in_range(x - fit.x, width as int, fit.width as int);
            lemma_sample_in_range(sub_y - fit.y, height as int, fit.height as int);
            assert(sy * width + sx < width * height) by (nonlinear_arith)
                requires
                    0 <= sx < width,
                    0 <= sy < height,
            ;
            assert(0 <= sy * width + sx) by (nonlinear_arith)
                requires
                    0 <= sx,
                    0 <= sy,
                    0 < width,
            ;
            assert(source.rgba_at(sy * width + sx) == (
                pixels@[4 * (sy * width + sx)],
                pixels@[4 * (sy * width + sx) + 1],
                pixels@[4 * (sy * width + sx) + 2],
                pixels@[4 * (sy * width + sx) + 3],
            ));
        }
        assert forall|i: int| 0 <= i < buffer.content@.len() implies {
            let x = col_of(buffer.area, i);
            let y = row_of(buffer.area, i);
            if in_dest(dest, x, y) {
                halves_drawn(
                    old(buffer).content@[i],
                    frame_half(pixels@, size, dest, x, 2 * y),
                    frame_half(pixels@, size, dest, x, 2 * y + 1),
                    #[trigger] buffer.content@[i],
                )
            } else {
                same_cell(buffer.content@[i], old(buffer).content@[i])
            }
        } by {
            let x = col_of(buffer.area, i);
            let y = row_of(buffer.area, i);
            if in_dest(dest, x, y) {
                assert(blitted.in_grid(x, 2 * y));
                assert(blitted.in_grid(x, 2 * y + 1));
            }
        }
    }
}

/// Readies `grid` to draw a `size` RGBA8 frame into the `dest` cells as
/// braille: the grid is refit to `dest` and every dot of it samples the
/// frame stretched over `dest`'s dots, nearest neighbor, setting the dot
/// unless the sample is fully transparent. Returns `false`, leaving the
/// grid alone, for an empty frame, which draws nothing. Resolving the
/// grid, with each cell's color averaged from its samples, finishes the
/// conversion.
pub fn blit_braille_frame(pixels: &[u8], size: (u32, u32), grid: &mut BrailleGrid, dest: Rect) -> (ready: bool)
    requires
        size.0 * size.1 * 4 <= pixels@.len(),
        2 * (dest.x + dest.width) <= u16::MAX,
        4 * (dest.y + dest.height) <= u16::MAX,
        2 * dest.width * size.0 <= usize::MAX,
        4 * dest.height * size.1 <= usize::MAX,
    ensures
        ready == (size.0 > 0 && size.1 > 0),
        !ready ==> *final(grid) == *old(grid),
        ready ==> {
            let fit = Rect {
                x: (2 * dest.x) as u16,
                y: (4 * dest.y) as u16,
                width: (2 * dest.width) as u16,
                height: (4 * dest.height) as u16,
            };
            &&& final(grid).wf()
            &&& final(grid).cells() == dest
            &&& final(grid).model() == braille_blitted(
                dest,
                (
                    Seq::new((dest.width * dest.height) as nat, |i: int| 0u8),
                    Seq::new((dest.width * dest.height) as nat, |i: int| Seq::<Color>::empty()),
                ),
                PixelGrid::rgba8_spec(pixels, size.0 as usize, size.1 as usize),
                fit,
                fit.width * fit.height,
            )
        },
{
    if size.0 == 0 || size.1 == 0 {
        return false;
    }
    let source = PixelGrid::rgba8(pixels, size.0 as usize, size.1 as usize);
    grid.reset(dest);
    let fit = grid.subcell_area();
    blit_braille(grid, &source, fit);
    true
}

/// Whether either of the two vertical samples of dest cell
/// `(column, row)` is not fully transparent.
pub open spec fn pair_opaque(pixels: Seq<u8>, size: (u32, u32), dest: Rect, column: int, row: int) -> bool {
    let (x, upper, lower) = cell_source_spec(size, dest, (column as u16, row as u16));
    pixels[4 * (upper * size.0 + x) + 3] != 0 || pixels[4 * (lower * size.0 + x) + 3] != 0
}

/// What a ramp conversion makes of the cell at `(x, y)`: inside `dest`,
/// where either of its samples is opaque, the ramp character its level
/// picks in its color; untouched elsewhere. Levels and colors are given
/// per dest cell, row-major.
pub open spec fn ramp_drawn(
    pixels: Seq<u8>,
    size: (u32, u32),
    dest: Rect,
    characters: Seq<char>,
    levels: Seq<usize>,
    colors: Seq<Color>,
) -> spec_fn(CellView, int, int) -> CellView {
    |v: CellView, x: int, y: int|
        if in_area(dest, x, y) && pair_opaque(pixels, size, dest, x - dest.x, y - dest.y) {
            with_fg(
                with_symbol(v, seq![characters[levels[index_in(dest, x, y)] as int]]),
                colors[index_in(dest, x, y)],
            )
        } else {
            v
        }
}

/// A source index below `len` for a destination index below `dest_len`
/// scaled by `len / dest_len`.
proof fn lemma_scaled_below(local: int, len: int, dest_len: int)
    requires
        0 <= local < dest_len,
        0 < len,
    ensures
        0 <= local * len / dest_len < len,
{
    lemma_sample_in_range(local, len, dest_len);
}

/// Draws one character per `dest` cell from a ramp, for the luminance and
/// depth strategies: each cell whose two vertical samples of the `size`
/// RGBA8 frame are not both fully transparent shows
/// `characters[levels[k]]` in `colors[k]`, `k` being the cell's row-major
/// index in `dest`; cells whose samples are both transparent, and cells
/// outside `dest`, are left as they were. An empty frame draws nothing.
/// The caller picks each level from the cell's samples.
pub fn draw_ramp(
    pixels: &[u8],
    size: (u32, u32),
    dest: Rect,
    characters: &[char],
    levels: &[usize],
    colors: &[Color],
    buffer: &mut Buffer,
)
    requires
        size.0 * size.1 * 4 <= pixels@.len(),
        dest.fits(),
        levels@.len() == dest.width * dest.height,
        colors@.len() == dest.width * dest.height,
        forall|k: int| 0 <= k < levels@.len() ==> (#[trigger] levels@[k]) < characters@.len(),
        dest.width * size.0 <= usize::MAX,
        2 * dest.height * size.1 <= usize::MAX,
        sound(old(buffer)),
    ensures
        sound(final(buffer)),
        final(buffer).area == old(buffer).area,
        final(buffer)@ == if size.0 > 0 && size.1 > 0 {
            (old(buffer)@.0, region_map(
                old(buffer)@,
                dest,
                dest.width * dest.height,
                ramp_drawn(pixels@, size, dest, characters@, levels@, colors@),
            ))
        } else {
            old(buffer)@
        },
{
    if size.0 == 0 || size.1 == 0 {
        return;
    }
    let ghost f = ramp_drawn(pixels@, size, dest, characters@, levels@, colors@);
    proof {
        lemma_area_fits(dest);
        lemma_region_ends(buffer@, dest, f);
    }
    let width = dest.width as usize;
    let n = levels.len();
    if width == 0 {
        return;
    }
    let ghost m0 = buffer@;
    let mut i: usize = 0;
    while i < n
        invariant
            i <= n,
            n == dest.width * dest.height,
            width == dest.width,
            width > 0,
            dest.fits(),
            size.0 > 0,
            size.1 > 0,
            size.0 * size.1 * 4 <= pixels@.len(),
            dest.width * size.0 <= usize::MAX,
            2 * dest.height * size.1 <= usize::MAX,
            levels@.len() == n,
            colors@.len() == n,
            forall|k: int| 0 <= k < levels@.len() ==> (#[trigger] levels@[k]) < characters@.len(),
            f == ramp_drawn(pixels@, size, dest, characters@, levels@, colors@),
            sound(buffer),
            buffer.area == m0.0,
            m0.1.len() == m0.0.width * m0.0.height,
            buffer@ == (m0.0, region_map(m0, dest, i as int, f)),
        decreases n - i,
    {
        proof {
            lemma_region_step(m0, dest, i as int, f);
            lemma_put_same(buffer@, col_pos(dest, i as int), row_pos(dest, i as int));
            crate::buffer::lemma_index_position(dest, i as int);
            crate::buffer::lemma_position_of_index(dest, i as int);
        }
        let column = i % width;
        let row = i / width;
        proof {
            assert(column * size.0 <= dest.width * size.0) by (nonlinear_arith)
                requires
                    column < dest.width,
            ;
            assert((row * 2 + 1) * size.1 <= 2 * dest.height * size.1) by (nonlinear_arith)
                requires
                    row < dest.height,
            ;
        }
        let (x, upper_y, lower_y) = cell_source_coords(size, dest, (column as u16, row as u16));
        proof {
            lemma_scaled_below(column as int, size.0 as int, dest.width as int);
            lemma_scaled_below(row * 2, size.1 as int, dest.height * 2);
            lemma_scaled_below(row * 2 + 1, size.1 as int, dest.height * 2);
            assert(upper_y * size.0 + x < size.0 * size.1) by (nonlinear_arith)
                requires
                    x < size.0,
                    upper_y < size.1,
            ;
            assert(lower_y * size.0 + x < size.0 * size.1) by (nonlinear_arith)
                requires
                    x < size.0,
                    lower_y < size.1,
            ;
        }
        let upper = pixel_at(pixels, size.0, x, upper_y);
        let lower = pixel_at(pixels, size.0, x, lower_y);
        proof {
            assert(upper[3] == pixels@[4 * (upper_y * size.0 + x) + 3]);
            assert(lower[3] == pixels@[4 * (lower_y * size.0 + x) + 3]);
        }
        if upper[3] != 0 || lower[3] != 0 {
            let cx = dest.x + column as u16;
            let cy = dest.y + row as u16;
            let s = string_of_char(characters[levels[i]]);
            buffer.put_fg_symbol(cx, cy, &s, colors[i]);
        }
        i = i + 1;
    }
}

} // verus!
