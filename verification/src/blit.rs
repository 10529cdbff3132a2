//! Getting a pixel image onto a subcell grid.
//!
//! [`PixelGrid`] borrows pixels in either layout the pipelines produce -
//! RGBA8 bytes or XRGB32 words - so a readback is sampled where it lies
//! instead of being converted first. [`letterbox`] works out the centered,
//! aspect-preserving rectangle to draw into, and [`blit_halfblocks`] samples
//! the image into that rectangle with a nearest-neighbor walk. Every
//! rectangle here is in a grid's subcell coordinates rather than cells.

use vstd::prelude::*;

use crate::braille::{set_model, BrailleGrid};
use crate::buffer::{index_in, lemma_index_in_bounds, lemma_index_injective, lemma_index_position};
use crate::geometry::Rect;
use crate::grid::HalfblockGrid;
use crate::style::Color;

verus! {

/// Bytes per RGBA8 pixel.
pub const RGBA_CHANNELS: usize = 4;

/// The pixels a grid borrows, in one of the two layouts.
enum PixelData<'a> {
    Rgba8(&'a [u8]),
    Xrgb32(&'a [u32]),
}

/// A borrowed pixel grid to blit from, rows top to bottom.
pub struct PixelGrid<'a> {
    pixels: PixelData<'a>,
    width: usize,
    height: usize,
}

/// The red, green and blue bytes of a `0x00RRGGBB` word; the high byte is
/// ignored.
pub open spec fn xrgb_spec(pixel: u32) -> (u8, u8, u8) {
    ((pixel >> 16) as u8, (pixel >> 8) as u8, pixel as u8)
}

/// The red, green and blue bytes of a `0x00RRGGBB` word; the high byte is
/// ignored.
pub fn xrgb_channels(pixel: u32) -> (c: (u8, u8, u8))
    ensures
        c == xrgb_spec(pixel),
{
    ((pixel >> 16) as u8, (pixel >> 8) as u8, pixel as u8)
}

impl<'a> PixelGrid<'a> {
    /// Pixel columns.
    pub closed spec fn columns(&self) -> nat {
        self.width as nat
    }

    /// Pixel rows.
    pub closed spec fn rows(&self) -> nat {
        self.height as nat
    }

    /// Whether the pixels are RGBA bytes (otherwise XRGB words).
    pub closed spec fn is_rgba(&self) -> bool {
        self.pixels is Rgba8
    }

    /// Enough pixels are borrowed for every row and column.
    pub closed spec fn wf(&self) -> bool {
        match self.pixels {
            PixelData::Rgba8(bytes) => self.width * self.height * 4 <= bytes@.len(),
            PixelData::Xrgb32(words) => self.width * self.height <= words@.len(),
        }
    }

    /// The red, green, blue and alpha of pixel `i`, row-major; XRGB
    /// pixels are opaque.
    pub closed spec fn rgba_at(&self, i: int) -> (u8, u8, u8, u8) {
        match self.pixels {
            PixelData::Rgba8(bytes) => (
                bytes@[4 * i],
                bytes@[4 * i + 1],
                bytes@[4 * i + 2],
                bytes@[4 * i + 3],
            ),
            PixelData::Xrgb32(words) => {
                let c = xrgb_spec(words@[i]);
                (c.0, c.1, c.2, 255)
            },
        }
    }

    /// The color of pixel `(x, y)`; `None` for a fully transparent one.
    pub open spec fn color_spec(&self, x: int, y: int) -> Option<Color> {
        let p = self.rgba_at(y * self.columns() + x);
        if p.3 == 0 {
            None
        } else {
            Some(Color::Rgb(p.0, p.1, p.2))
        }
    }

    /// The grid [`PixelGrid::rgba8`] builds over `pixels`.
    pub closed spec fn rgba8_spec(pixels: &'a [u8], width: usize, height: usize) -> PixelGrid<'a> {
        PixelGrid { pixels: PixelData::Rgba8(pixels), width, height }
    }

    /// Tightly packed RGBA bytes; fully transparent pixels are skipped
    /// when blitted, leaving their subcells untouched for compositing.
    /// `pixels` must hold at least `width * height` pixels.
    pub fn rgba8(pixels: &'a [u8], width: usize, height: usize) -> (g: PixelGrid<'a>)
        requires
            width * height * 4 <= pixels@.len(),
        ensures
            g == Self::rgba8_spec(pixels, width, height),
            g.wf(),
            g.is_rgba(),
            g.columns() == width,
            g.rows() == height,
            forall|i: int|
                0 <= i < width * height ==> #[trigger] g.rgba_at(i) == (
                    pixels@[4 * i],
                    pixels@[4 * i + 1],
                    pixels@[4 * i + 2],
                    pixels@[4 * i + 3],
                ),
    {
        PixelGrid { pixels: PixelData::Rgba8(pixels), width, height }
    }

    /// Packed `0x00RRGGBB` words; always opaque, high byte ignored.
    /// `pixels` must hold at least `width * height` pixels.
    pub fn xrgb32(pixels: &'a [u32], width: usize, height: usize) -> (g: PixelGrid<'a>)
        requires
            width * height <= pixels@.len(),
        ensures
            g.wf(),
            !g.is_rgba(),
            g.columns() == width,
            g.rows() == height,
            forall|i: int|
                0 <= i < width * height ==> #[trigger] g.rgba_at(i) == (
                    xrgb_spec(pixels@[i]).0,
                    xrgb_spec(pixels@[i]).1,
                    xrgb_spec(pixels@[i]).2,
                    255u8,
                ),
    {
        PixelGrid { pixels: PixelData::Xrgb32(pixels), width, height }
    }

    /// Pixel columns.
    pub fn width(&self) -> (w: usize)
        ensures
            w == self.columns(),
    {
        self.width
    }

    /// Pixel rows.
    pub fn height(&self) -> (h: usize)
        ensures
            h == self.rows(),
    {
        self.height
    }

    /// Fills `out` with the grid as tightly packed RGBA8 bytes
    /// (`width * height * 4`), reusing its allocation across calls. RGBA
    /// sources copy through with their alpha intact; XRGB sources emit
    /// alpha 255 with the high byte dropped.
    pub fn write_rgba8(&self, out: &mut Vec<u8>)
        requires
            self.wf(),
        ensures
            final(out)@.len() == self.columns() * self.rows() * 4,
            forall|i: int|
                0 <= i < self.columns() * self.rows() ==> {
                    let p = #[trigger] self.rgba_at(i);
                    &&& final(out)@[4 * i] == p.0
                    &&& final(out)@[4 * i + 1] == p.1
                    &&& final(out)@[4 * i + 2] == p.2
                    &&& final(out)@[4 * i + 3] == p.3
                },
    {
        out.clear();
        let n = self.capacity();
        let pixel_count = self.width * self.height;
        let mut i: usize = 0;
        while i < pixel_count
            invariant
                self.wf(),
                pixel_count == self.columns() * self.rows(),
                i <= pixel_count,
                out@.len() == 4 * i,
                forall|j: int|
                    0 <= j < i ==> {
                        let p = #[trigger] self.rgba_at(j);
                        &&& out@[4 * j] == p.0
                        &&& out@[4 * j + 1] == p.1
                        &&& out@[4 * j + 2] == p.2
                        &&& out@[4 * j + 3] == p.3
                    },
            decreases pixel_count - i,
        {
            let p = self.pixel(i);
            out.push(p.0);
            out.push(p.1);
            out.push(p.2);
            out.push(p.3);
            i = i + 1;
        }
    }

    /// The red, green, blue and alpha of pixel `i`.
    fn pixel(&self, i: usize) -> (p: (u8, u8, u8, u8))
        requires
            self.wf(),
            i < self.columns() * self.rows(),
        ensures
            p == self.rgba_at(i as int),
    {
        match self.pixels {
            PixelData::Rgba8(bytes) => {
                let len = bytes.len();
                proof {
                    assert(i * 4 + 3 < self.width * self.height * 4) by (nonlinear_arith)
                        requires
                            i < self.width * self.height,
                    ;
                }
                let start = i * 4;
                (bytes[start], bytes[start + 1], bytes[start + 2], bytes[start + 3])
            },
            PixelData::Xrgb32(words) => {
                let c = xrgb_channels(words[i]);
                (c.0, c.1, c.2, 255u8)
            },
        }
    }

    /// The number of pixels borrowed, at least `width * height`.
    fn capacity(&self) -> (n: usize)
        requires
            self.wf(),
        ensures
            self.columns() * self.rows() <= n,
    {
        match self.pixels {
            PixelData::Rgba8(bytes) => {
                proof {
                    assert(self.width * self.height <= self.width * self.height * 4) by (nonlinear_arith)
                        requires
                            self.width * self.height >= 0,
                    ;
                }
                bytes.len()
            },
            PixelData::Xrgb32(words) => words.len(),
        }
    }

    /// The color of pixel `(x, y)`; `None` for a fully transparent one.
    fn color_at(&self, x: usize, y: usize) -> (c: Option<Color>)
        requires
            self.wf(),
            x < self.columns(),
            y < self.rows(),
        ensures
            c == self.color_spec(x as int, y as int),
    {
        let n = self.capacity();
        proof {
            assert(y * self.columns() + x < self.columns() * self.rows()) by (nonlinear_arith)
                requires
                    x < self.columns(),
                    y < self.rows(),
            ;
        }
        let p = self.pixel(y * self.width + x);
        if p.3 == 0 {
            None
        } else {
            Some(Color::Rgb(p.0, p.1, p.2))
        }
    }
}

/// The size of the min-scale fit of a `source`-sized image into a
/// `tw` by `th` target: the target's height and the scaled width when the
/// source is relatively wider, otherwise the target's width and the scaled
/// height.
pub open spec fn letterbox_size(sw: int, sh: int, tw: int, th: int) -> (int, int) {
    if tw * sh >= th * sw {
        (th * sw / sh, th)
    } else {
        (tw, tw * sh / sw)
    }
}

/// The centered min-scale fit of a `source`-sized image into `target`.
pub open spec fn letterbox_spec(source: (usize, usize), target: Rect) -> Rect {
    let (sw, sh) = (source.0 as int, source.1 as int);
    let (tw, th) = (target.width as int, target.height as int);
    if sw == 0 || sh == 0 || tw == 0 || th == 0 {
        Rect { x: 0, y: 0, width: 0, height: 0 }
    } else {
        let (fit_w, fit_h) = letterbox_size(sw, sh, tw, th);
        Rect::new_spec(
            (target.x + (tw - fit_w) / 2) as u16,
            (target.y + (th - fit_h) / 2) as u16,
            fit_w as u16,
            fit_h as u16,
        )
    }
}

/// Whether the centered fit's origin stays in `u16`; past that the
/// coordinate addition overflows. Always so when the target's far edges
/// fit in `u16`.
pub open spec fn letterbox_in_range(source: (usize, usize), target: Rect) -> bool {
    let (sw, sh) = (source.0 as int, source.1 as int);
    let (tw, th) = (target.width as int, target.height as int);
    sw == 0 || sh == 0 || tw == 0 || th == 0 || {
        let (fit_w, fit_h) = letterbox_size(sw, sh, tw, th);
        &&& target.x + (tw - fit_w) / 2 <= 0xffff
        &&& target.y + (th - fit_h) / 2 <= 0xffff
    }
}

/// Centered min-scale fit of `source` pixels into `target`, both in
/// subcell space - pass a grid's subcell area. Returns the content
/// rectangle in the target's coordinates, ready for the blit functions;
/// empty input yields the zero rect. The fit is clamped, as every rect
/// is, so that its far edges stay in `u16`.
pub fn letterbox(source: (usize, usize), target: Rect) -> (r: Rect)
    requires
        letterbox_in_range(source, target),
        target.width * source.1 <= usize::MAX,
        target.height * source.0 <= usize::MAX,
    ensures
        r == letterbox_spec(source, target),
        r.fits(),
{
    let (source_w, source_h) = source;
    let target_w = target.width as usize;
    let target_h = target.height as usize;
    if source_w == 0 || source_h == 0 || target_w == 0 || target_h == 0 {
        return Rect::zero();
    }
    let (fit_w, fit_h) = if target_w * source_h >= target_h * source_w {
        proof {
            lemma_fit_within(target_h as int, source_w as int, source_h as int, target_w as int);
        }
        (target_h * source_w / source_h, target_h)
    } else {
        proof {
            lemma_fit_within(target_w as int, source_h as int, source_w as int, target_h as int);
        }
        (target_w, target_w * source_h / source_w)
    };
    assert((fit_w as int, fit_h as int) == letterbox_size(
        source_w as int,
        source_h as int,
        target_w as int,
        target_h as int,
    ));
    Rect::new(
        target.x + ((target_w - fit_w) / 2) as u16,
        target.y + ((target_h - fit_h) / 2) as u16,
        fit_w as u16,
        fit_h as u16,
    )
}

/// When `a * b <= c * d` with `d` nonzero, `a * b / d` does not exceed
/// `c`.
proof fn lemma_fit_within(a: int, b: int, d: int, c: int)
    requires
        0 <= a,
        0 <= b,
        0 < d,
        0 <= c,
        c * d >= a * b,
    ensures
        0 <= a * b / d <= c,
{
    assert(0 <= a * b) by (nonlinear_arith)
        requires
            0 <= a,
            0 <= b,
    ;
    vstd::arithmetic::div_mod::lemma_div_is_ordered(a * b, c * d, d);
    vstd::arithmetic::div_mod::lemma_div_by_multiple(c, d);
    vstd::arithmetic::div_mod::lemma_div_pos_is_pos(a * b, d);
}

/// The letterboxed rect lies inside the target, and fills it along at
/// least one axis unless the clamp to `u16` cut it short, which only a
/// target reaching past `u16` can suffer.
pub proof fn lemma_letterbox_fits_target(source: (usize, usize), target: Rect)
    requires
        letterbox_in_range(source, target),
        source.0 > 0,
        source.1 > 0,
        target.width > 0,
        target.height > 0,
    ensures
        ({
            let r = letterbox_spec(source, target);
            &&& target.x <= r.x
            &&& r.x + r.width <= target.x + target.width
            &&& target.y <= r.y
            &&& r.y + r.height <= target.y + target.height
            &&& target.fits() ==> r.width == target.width || r.height == target.height
        }),
{
    let (sw, sh) = (source.0 as int, source.1 as int);
    let (tw, th) = (target.width as int, target.height as int);
    if tw * sh >= th * sw {
        lemma_fit_within(th, sw, sh, tw);
    } else {
        lemma_fit_within(tw, sh, sw, th);
    }
}

/// The source pixel that fit-local position `k` (row-major in `fit`)
/// samples.
pub open spec fn sample_x(pixels_w: int, fit: Rect, column: int) -> int {
    column * pixels_w / (fit.width as int)
}

/// The source row that fit-local row `row` samples.
pub open spec fn sample_y(pixels_h: int, fit: Rect, row: int) -> int {
    row * pixels_h / (fit.height as int)
}

/// What a blit of `pixels` into `fit` leaves at grid point `(px, py)` of
/// a grid whose points were `before`: the sampled color where `fit`
/// covers an opaque sample inside the grid, the old point elsewhere.
pub open spec fn blitted_point(
    pixels: PixelGrid,
    fit: Rect,
    in_grid: bool,
    before: Option<Color>,
    px: int,
    py: int,
) -> Option<Color> {
    if fit.x <= px < fit.x + fit.width && fit.y <= py < fit.y + fit.height && in_grid {
        match pixels.color_spec(
            sample_x(pixels.columns() as int, fit, px - fit.x),
            sample_y(pixels.rows() as int, fit, py - fit.y),
        ) {
            Some(c) => Some(c),
            None => before,
        }
    } else {
        before
    }
}

/// Nearest-neighbor blit of `pixels` into `fit`, given in the grid's
/// absolute subcell coordinates - [`letterbox`] output, or the grid's
/// whole subcell area for a stretch fit. Subcells outside `fit`, and those
/// a fully transparent pixel lands on, are untouched.
pub fn blit_halfblocks(grid: &mut HalfblockGrid, pixels: &PixelGrid, fit: Rect)
    requires
        old(grid).wf(),
        pixels.wf(),
        fit.fits(),
        fit.width * pixels.columns() <= usize::MAX,
        fit.height * pixels.rows() <= usize::MAX,
        !fit.empty_spec() ==> pixels.columns() > 0 && pixels.rows() > 0,
    ensures
        final(grid).wf(),
        final(grid).cells() == old(grid).cells(),
        forall|px: int, py: int|
            #[trigger] final(grid).point(px, py) == blitted_point(
                *pixels,
                fit,
                old(grid).in_grid(px, py),
                old(grid).point(px, py),
                px,
                py,
            ),
{
    let fit_w = fit.width as usize;
    let fit_h = fit.height as usize;
    proof {
        crate::buffer::lemma_area_fits(fit);
    }
    let total: usize = fit_w * fit_h;
    proof {
        assert(total > 0 ==> fit_w > 0 && fit_h > 0) by (nonlinear_arith)
            requires
                total == fit_w * fit_h,
                fit_w >= 0,
                fit_h >= 0,
        ;
    }
    let mut k: usize = 0;
    while k < total
        invariant
            grid.wf(),
            grid.cells() == old(grid).cells(),
            pixels.wf(),
            fit.fits(),
            fit_w == fit.width,
            fit_h == fit.height,
            total == fit_w * fit_h,
            fit.width * pixels.columns() <= usize::MAX,
            fit.height * pixels.rows() <= usize::MAX,
            total > 0 ==> pixels.columns() > 0 && pixels.rows() > 0,
            k <= total,
            forall|px: int, py: int|
                #[trigger] grid.point(px, py) == if fit.x <= px < fit.x + fit.width && fit.y <= py
                    < fit.y + fit.height && index_in(fit, px, py) < k {
                    blitted_point(
                        *pixels,
                        fit,
                        old(grid).in_grid(px, py),
                        old(grid).point(px, py),
                        px,
                        py,
                    )
                } else {
                    old(grid).point(px, py)
                },
        decreases total - k,
    {
        proof {
            lemma_index_position(fit, k as int);
            crate::buffer::lemma_position_of_index(fit, k as int);
        }
        let column = k % fit_w;
        let row = k / fit_w;
        proof {
            lemma_sample_in_range(column as int, pixels.columns() as int, fit_w as int);
            lemma_sample_in_range(row as int, pixels.rows() as int, fit_h as int);
            assert(column * pixels.columns() <= fit.width * pixels.columns()) by (nonlinear_arith)
                requires
                    column < fit.width,
            ;
            assert(row * pixels.rows() <= fit.height * pixels.rows()) by (nonlinear_arith)
                requires
                    row < fit.height,
            ;
        }
        let source_x = column * pixels.width / fit_w;
        let source_y = row * pixels.height / fit_h;
        let x: u16 = fit.x + column as u16;
        let y: u16 = fit.y + row as u16;
        let ghost before = *grid;
        match pixels.color_at(source_x, source_y) {
            Some(color) => {
                grid.set(x, y, color);
            },
            None => {},
        }
        proof {
            assert forall|px: int, py: int| #[trigger]
                grid.point(px, py) == if fit.x <= px < fit.x + fit.width && fit.y <= py < fit.y
                    + fit.height && index_in(fit, px, py) < k + 1 {
                    blitted_point(
                        *pixels,
                        fit,
                        old(grid).in_grid(px, py),
                        old(grid).point(px, py),
                        px,
                        py,
                    )
                } else {
                    old(grid).point(px, py)
                } by {
                if fit.x <= px < fit.x + fit.width && fit.y <= py < fit.y + fit.height {
                    lemma_index_in_bounds(fit, px, py);
                    if index_in(fit, px, py) == k {
                        lemma_index_injective(fit, px, py, x as int, y as int);
                    }
                }
            }
        }
        k = k + 1;
    }
    assert forall|px: int, py: int| #[trigger]
        grid.point(px, py) == blitted_point(
            *pixels,
            fit,
            old(grid).in_grid(px, py),
            old(grid).point(px, py),
            px,
            py,
        ) by {
        if fit.x <= px < fit.x + fit.width && fit.y <= py < fit.y + fit.height {
            lemma_index_in_bounds(fit, px, py);
        }
    }
}

/// A fit-local coordinate below `fit_len` samples a source coordinate
/// below `source_len`.
pub(crate) proof fn lemma_sample_in_range(local: int, source_len: int, fit_len: int)
    requires
        0 <= local < fit_len,
        0 < source_len,
    ensures
        0 <= local * source_len / fit_len < source_len,
{
    assert(local * source_len < fit_len * source_len) by (nonlinear_arith)
        requires
            0 <= local < fit_len,
            0 < source_len,
    ;
    assert(0 <= local * source_len) by (nonlinear_arith)
        requires
            0 <= local,
            0 < source_len,
    ;
    vstd::arithmetic::div_mod::lemma_div_pos_is_pos(local * source_len, fit_len);
    vstd::arithmetic::div_mod::lemma_multiply_divide_lt(local * source_len, fit_len, source_len);
}

/// The braille grid's dots and samples after the first `k` positions of
/// `fit` (row-major) are blitted: each position samples its source pixel
/// and, if that pixel is not fully transparent, sets its dot in that
/// color.
pub open spec fn braille_blitted(
    cells: Rect,
    model: (Seq<u8>, Seq<Seq<Color>>),
    pixels: PixelGrid,
    fit: Rect,
    k: int,
) -> (Seq<u8>, Seq<Seq<Color>>)
    decreases k,
{
    if k <= 0 {
        model
    } else {
        let prev = braille_blitted(cells, model, pixels, fit, k - 1);
        let column = (k - 1) % (fit.width as int);
        let row = (k - 1) / (fit.width as int);
        match pixels.color_spec(
            sample_x(pixels.columns() as int, fit, column),
            sample_y(pixels.rows() as int, fit, row),
        ) {
            Some(c) => set_model(cells, prev, fit.x + column, fit.y + row, c),
            None => prev,
        }
    }
}

/// Nearest-neighbor blit of `pixels` into `fit`, given in the grid's
/// absolute dot coordinates - [`letterbox`] output, or the grid's whole
/// dot area for a stretch fit: every dot of `fit`, in row-major order,
/// samples its source pixel and is set unless that pixel is fully
/// transparent. Dots outside `fit` are untouched.
pub fn blit_braille(grid: &mut BrailleGrid, pixels: &PixelGrid, fit: Rect)
    requires
        old(grid).wf(),
        pixels.wf(),
        fit.fits(),
        fit.width * pixels.columns() <= usize::MAX,
        fit.height * pixels.rows() <= usize::MAX,
        !fit.empty_spec() ==> pixels.columns() > 0 && pixels.rows() > 0,
    ensures
        final(grid).wf(),
        final(grid).cells() == old(grid).cells(),
        final(grid).model() == braille_blitted(
            old(grid).cells(),
            old(grid).model(),
            *pixels,
            fit,
            fit.width * fit.height,
        ),
{
    let fit_w = fit.width as usize;
    let fit_h = fit.height as usize;
    proof {
        crate::buffer::lemma_area_fits(fit);
    }
    let total: usize = fit_w * fit_h;
    proof {
        assert(total > 0 ==> fit_w > 0 && fit_h > 0) by (nonlinear_arith)
            requires
                total == fit_w * fit_h,
                fit_w >= 0,
                fit_h >= 0,
        ;
    }
    let mut k: usize = 0;
    while k < total
        invariant
            grid.wf(),
            grid.cells() == old(grid).cells(),
            pixels.wf(),
            fit.fits(),
            fit_w == fit.width,
            fit_h == fit.height,
            total == fit_w * fit_h,
            fit.width * pixels.columns() <= usize::MAX,
            fit.height * pixels.rows() <= usize::MAX,
            total > 0 ==> pixels.columns() > 0 && pixels.rows() > 0,
            k <= total,
            grid.model() == braille_blitted(old(grid).cells(), old(grid).model(), *pixels, fit, k as int),
        decreases total - k,
    {
        proof {
            lemma_index_position(fit, k as int);
            crate::buffer::lemma_position_of_index(fit, k as int);
        }
        let column = k % fit_w;
        let row = k / fit_w;
        proof {
            lemma_sample_in_range(column as int, pixels.columns() as int, fit_w as int);
            lemma_sample_in_range(row as int, pixels.rows() as int, fit_h as int);
            assert(column * pixels.columns() <= fit.width * pixels.columns()) by (nonlinear_arith)
                requires
                    column < fit.width,
            ;
            assert(row * pixels.rows() <= fit.height * pixels.rows()) by (nonlinear_arith)
                requires
                    row < fit.height,
            ;
        }
        let source_x = column * pixels.width / fit_w;
        let source_y = row * pixels.height / fit_h;
        let x: u16 = fit.x + column as u16;
        let y: u16 = fit.y + row as u16;
        match pixels.color_at(source_x, source_y) {
            Some(color) => {
                grid.set(x, y, color);
            },
            None => {},
        }
        k = k + 1;
    }
}

} // verus!
