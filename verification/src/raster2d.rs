//! Drawing 2d sprites into a camera buffer once their anchors are
//! projected: glyph sprites stamp their rows of text centered on the
//! anchor cell, pixel sprites set their pixels around the anchor subcell.
//! Only sprites sharing a render layer with the camera draw, in the order
//! given.

use vstd::prelude::*;

use crate::braille::{set_model, BrailleGrid};
use crate::buffer::{col_of, row_of, Buffer, CellView};
use crate::compositor::sound;
use crate::geometry::Rect;
use crate::grid::{halves_drawn, HalfblockGrid};
use crate::layers::RenderLayers;
use crate::sprite2d::{
    block_pixels, block_pixels_spec, columns_fit, rows_of, split_rows, stamp_items, stamp_row,
    stamp_widths,
};
use crate::style::{Color, Style};
use crate::unicode::{graphemes, str_width, unicode_graphemes};

verus! {

/// A one-cell sprite drawn at its projected cell.
#[derive(Debug)]
pub struct Glyph {
    /// The cell content, a single grapheme cluster.
    pub symbol: String,
    /// The style applied to the cell.
    pub style: Style,
}

impl Glyph {
    /// A glyph with the default style.
    pub fn new(symbol: &str) -> (g: Glyph)
        ensures
            g.symbol@ == symbol@,
            g.style == Style::plain(),
    {
        Glyph { symbol: symbol.to_owned(), style: Style::new() }
    }

    /// Sets the glyph's style.
    pub fn style(self, style: Style) -> (g: Glyph)
        ensures
            g.symbol == self.symbol,
            g.style == style,
    {
        Glyph { style, ..self }
    }
}

/// A rectangular text-art sprite stamped centered on its projected cell,
/// one grapheme per cell; `' '` cells are transparent.
#[derive(Debug)]
pub struct GlyphBlock {
    /// The rows of cell content, top to bottom.
    pub rows: Vec<String>,
    /// The style applied to every stamped cell.
    pub style: Style,
}

impl GlyphBlock {
    /// A block from newline-separated text with the default style.
    pub fn new(text: &str) -> (b: GlyphBlock)
        ensures
            b.rows@.len() == split_rows(text@).len(),
            forall|i: int| 0 <= i < b.rows@.len() ==> #[trigger] b.rows@[i]@ == split_rows(text@)[i],
            b.style == Style::plain(),
    {
        GlyphBlock { rows: rows_of(text), style: Style::new() }
    }

    /// Sets the block's style.
    pub fn style(self, style: Style) -> (b: GlyphBlock)
        ensures
            b.rows == self.rows,
            b.style == style,
    {
        GlyphBlock { style, ..self }
    }
}

/// The sum of `ws`.
pub open spec fn seq_sum(ws: Seq<int>) -> int
    decreases ws.len(),
{
    if ws.len() == 0 {
        0
    } else {
        seq_sum(ws.drop_last()) + ws.last()
    }
}

/// The widths a row of glyph text stamps with.
pub open spec fn row_widths(row: Seq<char>) -> Seq<int> {
    stamp_widths(unicode_graphemes(row))
}

/// The width of a row of glyph text: the sum of its graphemes' widths.
pub open spec fn row_width(row: Seq<char>) -> int {
    seq_sum(row_widths(row))
}

/// The width of a block of rows: its widest row's, zero without rows.
pub open spec fn rows_width(rows: Seq<Seq<char>>) -> int
    decreases rows.len(),
{
    if rows.len() == 0 {
        0
    } else if rows.len() == 1 {
        row_width(rows[0])
    } else {
        let rest = rows_width(rows.drop_last());
        let last = row_width(rows.last());
        if last > rest {
            last
        } else {
            rest
        }
    }
}

/// Whether every running sum of a row's widths stays in `i32`.
pub open spec fn row_fits(row: Seq<char>) -> bool {
    columns_fit(row_widths(row), 0)
}

/// The views of `rows`.
pub open spec fn views(rows: Seq<String>) -> Seq<Seq<char>> {
    rows.map_values(|r: String| r@)
}

proof fn lemma_sum_step(ws: Seq<int>, j: int)
    requires
        0 <= j < ws.len(),
    ensures
        seq_sum(ws.take(j + 1)) == seq_sum(ws.take(j)) + ws[j],
{
    assert(ws.take(j + 1).drop_last() =~= ws.take(j));
}

/// The width of one row of glyph text, `None` when a running sum of its
/// grapheme widths leaves `i32`.
fn row_width_of(row: &String) -> (w: Option<i32>)
    ensures
        w is Some <==> row_fits(row@),
        w matches Some(v) ==> v == row_width(row@),
{
    let gs = graphemes(row.as_str());
    let ghost ws = row_widths(row@);
    let mut sum: i64 = 0;
    let mut j: usize = 0;
    proof {
        assert(ws.skip(0) =~= ws);
        assert(ws.take(0) =~= Seq::<int>::empty());
    }
    while j < gs.len()
        invariant
            j <= gs@.len(),
            gs@.len() == ws.len(),
            forall|i: int| 0 <= i < gs@.len() ==> #[trigger] gs@[i]@ == unicode_graphemes(row@)[i],
            ws == row_widths(row@),
            i32::MIN <= sum <= i32::MAX,
            sum == seq_sum(ws.take(j as int)),
            columns_fit(ws.skip(j as int), sum as int) == row_fits(row@),
        decreases gs@.len() - j,
    {
        proof {
            assert(ws.skip(j as int).drop_first() =~= ws.skip(j as int + 1));
            lemma_sum_step(ws, j as int);
        }
        let width = str_width(gs[j].as_str());
        let w: i32 = #[verifier::truncate] (width as i32);
        assert(w as int == ws[j as int]);
        let next = sum + w as i64;
        if next > i32::MAX as i64 || next < i32::MIN as i64 {
            return None;
        }
        sum = next;
        j = j + 1;
    }
    proof {
        assert(ws.skip(j as int) =~= Seq::<int>::empty());
        assert(ws.take(j as int) =~= ws);
    }
    Some(sum as i32)
}

/// The width of a glyph block, its widest row's; zero without rows.
/// `None` when some row is so wide that a running sum of its grapheme
/// widths leaves `i32`.
pub fn block_width(rows: &[String]) -> (w: Option<i32>)
    ensures
        w is Some <==> forall|k: int| 0 <= k < rows@.len() ==> row_fits(#[trigger] rows@[k]@),
        w matches Some(v) ==> v == rows_width(views(rows@)),
{
    let mut widest: i32 = 0;
    let mut k: usize = 0;
    proof {
        assert(views(rows@).take(0) =~= Seq::<Seq<char>>::empty());
    }
    while k < rows.len()
        invariant
            k <= rows@.len(),
            forall|i: int| 0 <= i < k ==> row_fits(#[trigger] rows@[i]@),
            widest == rows_width(views(rows@).take(k as int)),
        decreases rows@.len() - k,
    {
        proof {
            assert(views(rows@).take(k as int + 1).drop_last() =~= views(rows@).take(k as int));
            assert(views(rows@).take(k as int + 1).last() == rows@[k as int]@);
        }
        match row_width_of(&rows[k]) {
            None => return None,
            Some(width) => {
                if k == 0 || width > widest {
                    widest = width;
                }
            },
        }
        proof {
            if k == 0 {
                assert(views(rows@).take(1)[0] == rows@[0]@);
            }
        }
        k = k + 1;
    }
    proof {
        assert(views(rows@).take(k as int) =~= views(rows@));
    }
    Some(widest)
}

/// Half of `v`, rounded toward zero as `i32` division rounds.
pub open spec fn half_toward_zero(v: int) -> int {
    if v >= 0 {
        v / 2
    } else {
        -((-v) / 2)
    }
}

/// Where a glyph block anchored at `anchor` starts: its rows centered
/// on the anchor cell, both ways.
pub open spec fn glyph_origin(rows: Seq<Seq<char>>, anchor: (i32, i32)) -> (int, int) {
    (anchor.0 - half_toward_zero(rows_width(rows)), anchor.1 - rows.len() / 2)
}

/// Whether a glyph block anchored at `anchor` is addressable in `i32`:
/// its width and row count fit, and so do its first column and every row
/// index.
pub open spec fn glyph_fits(rows: Seq<Seq<char>>, anchor: (i32, i32)) -> bool {
    let origin = glyph_origin(rows, anchor);
    &&& forall|k: int| 0 <= k < rows.len() ==> row_fits(#[trigger] rows[k])
    &&& rows.len() <= i32::MAX
    &&& i32::MIN <= origin.0 <= i32::MAX
    &&& i32::MIN <= origin.1
    &&& origin.1 + rows.len() <= i32::MAX + 1
}

/// A row of glyph text stamped from viewport-relative `(column, row)`:
/// its graphemes left to right, or nothing when its columns would leave
/// `i32`.
pub open spec fn row_stamped(
    m: (Rect, Seq<CellView>),
    text: Seq<char>,
    style: Style,
    column: int,
    row: int,
) -> (Rect, Seq<CellView>) {
    if columns_fit(row_widths(text), column) {
        stamp_items(m, unicode_graphemes(text), row_widths(text), style, column, row)
    } else {
        m
    }
}

/// Rows of glyph text stamped one below the other from viewport-relative
/// `(column, top)`.
pub open spec fn rows_stamped(
    m: (Rect, Seq<CellView>),
    rows: Seq<Seq<char>>,
    style: Style,
    column: int,
    top: int,
) -> (Rect, Seq<CellView>)
    decreases rows.len(),
{
    if rows.len() == 0 {
        m
    } else {
        row_stamped(
            rows_stamped(m, rows.drop_last(), style, column, top),
            rows.last(),
            style,
            column,
            top + rows.len() - 1,
        )
    }
}

/// Stamps a glyph block's rows into `buffer` centered on the
/// viewport-relative `anchor` cell: each row from the block's first
/// column, its graphemes left to right, spaces transparent, wide
/// graphemes hiding the cells they cover, cells outside the buffer
/// clipped. Returns `false`, leaving the buffer untouched, when the block
/// is not addressable in `i32` ([`glyph_fits`]).
pub fn draw_glyph(buffer: &mut Buffer, rows: &[String], style: Style, anchor: (i32, i32)) -> (drawn: bool)
    requires
        sound(old(buffer)),
    ensures
        sound(final(buffer)),
        final(buffer).area == old(buffer).area,
        drawn == glyph_fits(views(rows@), anchor),
        drawn ==> final(buffer)@ == rows_stamped(
            old(buffer)@,
            views(rows@),
            style,
            glyph_origin(views(rows@), anchor).0,
            glyph_origin(views(rows@), anchor).1,
        ),
        !drawn ==> final(buffer)@ == old(buffer)@,
{
    let ghost all = views(rows@);
    let width = match block_width(rows) {
        None => {
            proof {
                let k = choose|k: int| 0 <= k < rows@.len() && !row_fits(#[trigger] rows@[k]@);
                assert(all[k] == rows@[k]@);
            }
            return false;
        },
        Some(w) => w,
    };
    proof {
        assert forall|k: int| 0 <= k < all.len() implies row_fits(#[trigger] all[k]) by {
            assert(all[k] == rows@[k]@);
        }
    }
    if rows.len() > i32::MAX as usize {
        return false;
    }
    let w64 = width as i64;
    let half: i64 = if w64 >= 0 {
        w64 / 2
    } else {
        -((-w64) / 2)
    };
    let column: i64 = anchor.0 as i64 - half;
    let count = rows.len() as i64;
    let top: i64 = anchor.1 as i64 - count / 2;
    if column < i32::MIN as i64 || column > i32::MAX as i64 || top < i32::MIN as i64 || top + count
        > i32::MAX as i64 + 1 {
        return false;
    }
    let mut k: usize = 0;
    proof {
        assert(all.take(0) =~= Seq::<Seq<char>>::empty());
    }
    while k < rows.len()
        invariant
            k <= rows@.len(),
            all == views(rows@),
            top + rows@.len() <= i32::MAX + 1,
            i32::MIN <= top,
            i32::MIN <= column <= i32::MAX,
            sound(buffer),
            buffer.area == old(buffer).area,
            buffer@ == rows_stamped(old(buffer)@, all.take(k as int), style, column as int, top as int),
        decreases rows@.len() - k,
    {
        proof {
            assert(all.take(k as int + 1).drop_last() =~= all.take(k as int));
            assert(all.take(k as int + 1).last() == rows@[k as int]@);
        }
        let row_index = (top + k as i64) as i32;
        stamp_row(buffer, rows[k].as_str(), style, (column as i32, row_index));
        k = k + 1;
    }
    proof {
        assert(all.take(k as int) =~= all);
    }
    true
}

/// A glyph or glyph block ready to draw: its render layers, rows and
/// style, and the viewport-relative cell its projection landed on.
#[derive(Debug)]
pub struct PlacedGlyph {
    /// The render layers the sprite is on.
    pub layers: RenderLayers,
    /// The rows of cell content, top to bottom.
    pub rows: Vec<String>,
    /// The style applied to every stamped cell.
    pub style: Style,
    /// The projected anchor cell, relative to the viewport.
    pub anchor: (i32, i32),
}

/// What drawing `glyph` for a camera on `camera` layers makes of a
/// buffer: the glyph stamped if it shares a layer with the camera and is
/// addressable, the buffer unchanged otherwise.
pub open spec fn glyph_drawn(
    m: (Rect, Seq<CellView>),
    camera: RenderLayers,
    glyph: PlacedGlyph,
) -> (Rect, Seq<CellView>) {
    let rows = views(glyph.rows@);
    if !camera.layers().intersect(glyph.layers.layers()).is_empty() && glyph_fits(rows, glyph.anchor) {
        rows_stamped(m, rows, glyph.style, glyph_origin(rows, glyph.anchor).0, glyph_origin(rows, glyph.anchor).1)
    } else {
        m
    }
}

/// `glyphs` drawn in order, later ones over earlier ones.
pub open spec fn glyphs_drawn(
    m: (Rect, Seq<CellView>),
    camera: RenderLayers,
    glyphs: Seq<PlacedGlyph>,
) -> (Rect, Seq<CellView>)
    decreases glyphs.len(),
{
    if glyphs.len() == 0 {
        m
    } else {
        glyph_drawn(glyphs_drawn(m, camera, glyphs.drop_last()), camera, glyphs.last())
    }
}

/// Draws `glyphs` into a camera's buffer in the order given: each glyph
/// sharing a render layer with the `camera` mask is stamped centered on
/// its anchor ([`draw_glyph`]); the rest are skipped.
pub fn draw_glyphs(buffer: &mut Buffer, camera: RenderLayers, glyphs: &[PlacedGlyph])
    requires
        sound(old(buffer)),
    ensures
        sound(final(buffer)),
        final(buffer).area == old(buffer).area,
        final(buffer)@ == glyphs_drawn(old(buffer)@, camera, glyphs@),
{
    let mut k: usize = 0;
    proof {
        assert(glyphs@.take(0) =~= Seq::<PlacedGlyph>::empty());
    }
    while k < glyphs.len()
        invariant
            k <= glyphs@.len(),
            sound(buffer),
            buffer.area == old(buffer).area,
            buffer@ == glyphs_drawn(old(buffer)@, camera, glyphs@.take(k as int)),
        decreases glyphs@.len() - k,
    {
        proof {
            assert(glyphs@.take(k as int + 1).drop_last() =~= glyphs@.take(k as int));
            assert(glyphs@.take(k as int + 1).last() == glyphs@[k as int]);
        }
        let glyph = &glyphs[k];
        if camera.intersects(glyph.layers) {
            draw_glyph(buffer, glyph.rows.as_slice(), glyph.style, glyph.anchor);
        }
        k = k + 1;
    }
    proof {
        assert(glyphs@.take(k as int) =~= glyphs@);
    }
}

/// A pixel or pixel block ready to draw: its render layers, the span of
/// the shared cell store holding its row-major cells, its size, and the
/// absolute subcell its projection landed on.
#[derive(Clone, Copy, Debug)]
pub struct PlacedPixels {
    /// The render layers the sprite is on.
    pub layers: RenderLayers,
    /// Where the block's cells start in the shared cell store.
    pub start: usize,
    /// Where the block's cells end in the shared cell store.
    pub end: usize,
    /// Pixels per row.
    pub width: usize,
    /// Rows.
    pub height: usize,
    /// The projected anchor subcell.
    pub anchor: (i32, i32),
}

/// Whether a pixel block can be placed: its cells lie in the store and
/// within its size, and every pixel coordinate around its anchor is
/// addressable in `i32`.
pub open spec fn pixels_fit(block: PlacedPixels, store_len: int) -> bool {
    &&& block.start <= block.end <= store_len
    &&& block.width > 0
    &&& block.width <= i32::MAX
    &&& block.height <= i32::MAX
    &&& block.end - block.start <= block.width * block.height
    &&& i32::MIN <= block.anchor.0 - block.width as int / 2
    &&& block.anchor.0 - block.width as int / 2 + block.width <= i32::MAX
    &&& i32::MIN <= block.anchor.1 - block.height as int / 2
    &&& block.anchor.1 - block.height as int / 2 + block.height <= i32::MAX
}

/// The pixels a camera on `camera` layers sets, in order: each block that
/// shares a layer with it and can be placed contributes its pixels around
/// its anchor ([`block_pixels_spec`]).
pub open spec fn placed_pixels(camera: RenderLayers, blocks: Seq<PlacedPixels>, cells: Seq<Option<Color>>) -> Seq<
    (u16, u16, Color),
>
    decreases blocks.len(),
{
    if blocks.len() == 0 {
        Seq::empty()
    } else {
        let block = blocks.last();
        let earlier = placed_pixels(camera, blocks.drop_last(), cells);
        if !camera.layers().intersect(block.layers.layers()).is_empty() && pixels_fit(block, cells.len() as int) {
            earlier + block_pixels_spec(
                cells.subrange(block.start as int, block.end as int),
                block.width as int,
                block.height as int,
                block.anchor,
            )
        } else {
            earlier
        }
    }
}

/// The color the last of `pixels` at `(x, y)` sets; `None` if none does.
pub open spec fn last_at(pixels: Seq<(u16, u16, Color)>, x: int, y: int) -> Option<Color>
    decreases pixels.len(),
{
    if pixels.len() == 0 {
        None
    } else if pixels.last().0 == x && pixels.last().1 == y {
        Some(pixels.last().2)
    } else {
        last_at(pixels.drop_last(), x, y)
    }
}

/// The halfblock grid's points after setting `pixels` in order on an
/// empty grid.
spec fn points_after(grid: HalfblockGrid, pixels: Seq<(u16, u16, Color)>) -> bool {
    forall|x: int, sub_y: int|
        #[trigger] grid.point(x, sub_y) == if grid.in_grid(x, sub_y) {
            last_at(pixels, x, sub_y)
        } else {
            None
        }
}

/// Sets `pixels` in order into the halfblock grid.
fn set_halfblock_pixels(grid: &mut HalfblockGrid, pixels: &Vec<(u16, u16, Color)>, Ghost(before): Ghost<
    Seq<(u16, u16, Color)>,
>)
    requires
        old(grid).wf(),
        points_after(*old(grid), before),
    ensures
        final(grid).wf(),
        final(grid).cells() == old(grid).cells(),
        points_after(*final(grid), before + pixels@),
{
    let mut j: usize = 0;
    proof {
        assert(before + pixels@.take(0) =~= before);
    }
    while j < pixels.len()
        invariant
            j <= pixels@.len(),
            grid.wf(),
            grid.cells() == old(grid).cells(),
            points_after(*grid, before + pixels@.take(j as int)),
        decreases pixels@.len() - j,
    {
        let (x, y, color) = pixels[j];
        let ghost prev = *grid;
        grid.set(x, y, color);
        proof {
            let done = before + pixels@.take(j as int);
            let next = before + pixels@.take(j as int + 1);
            assert(next.drop_last() =~= done);
            assert(next.last() == pixels@[j as int]);
            assert forall|px: int, py: int| #[trigger]
                grid.point(px, py) == if grid.in_grid(px, py) {
                    last_at(next, px, py)
                } else {
                    None
                } by {
                assert(prev.point(px, py) == if prev.in_grid(px, py) {
                    last_at(done, px, py)
                } else {
                    None
                });
            }
        }
        j = j + 1;
    }
    proof {
        assert(pixels@.take(j as int) =~= pixels@);
    }
}

/// Draws pixel sprites into a camera's buffer at halfblock resolution:
/// the blocks sharing a render layer with the `camera` mask set their
/// pixels in order on a grid over the buffer's area - a later pixel over
/// an earlier one at the same subcell - and the grid resolves into the
/// buffer: both halves of a cell set draw `▀`, one half draws its half
/// block over the existing background, and cells with neither set are
/// untouched. `grid` is scratch space reused across calls.
pub fn draw_halfblock_pixels(
    camera: RenderLayers,
    blocks: &[PlacedPixels],
    cells: &[Option<Color>],
    grid: &mut HalfblockGrid,
    buffer: &mut Buffer,
)
    requires
        sound(old(buffer)),
        old(buffer).area.width * old(buffer).area.height * 2 <= usize::MAX,
    ensures
        sound(final(buffer)),
        final(buffer).area == old(buffer).area,
        forall|i: int|
            0 <= i < final(buffer).content@.len() ==> {
                let x = col_of(final(buffer).area, i);
                let y = row_of(final(buffer).area, i);
                let pixels = placed_pixels(camera, blocks@, cells@);
                halves_drawn(
                    old(buffer).content@[i],
                    last_at(pixels, x, 2 * y),
                    last_at(pixels, x, 2 * y + 1),
                    #[trigger] final(buffer).content@[i],
                )
            },
{
    let area = buffer.area;
    grid.reset(area);
    let mut k: usize = 0;
    proof {
        assert(blocks@.take(0) =~= Seq::<PlacedPixels>::empty());
    }
    while k < blocks.len()
        invariant
            k <= blocks@.len(),
            grid.wf(),
            grid.cells() == area,
            points_after(*grid, placed_pixels(camera, blocks@.take(k as int), cells@)),
        decreases blocks@.len() - k,
    {
        let ghost done = placed_pixels(camera, blocks@.take(k as int), cells@);
        proof {
            assert(blocks@.take(k as int + 1).drop_last() =~= blocks@.take(k as int));
            assert(blocks@.take(k as int + 1).last() == blocks@[k as int]);
        }
        let block = blocks[k];
        if camera.intersects(block.layers) && fits_store(&block, cells.len()) {
            let pixels = block_pixels(cells, block.start, block.end, block.width, block.height, block.anchor);
            set_halfblock_pixels(grid, &pixels, Ghost(done));
        }
        k = k + 1;
    }
    proof {
        assert(blocks@.take(k as int) =~= blocks@);
    }
    let ghost filled = *grid;
    grid.resolve_into(buffer);
    proof {
        let pixels = placed_pixels(camera, blocks@, cells@);
        assert forall|i: int| 0 <= i < buffer.content@.len() implies halves_drawn(
            old(buffer).content@[i],
            last_at(pixels, col_of(buffer.area, i), 2 * row_of(buffer.area, i)),
            last_at(pixels, col_of(buffer.area, i), 2 * row_of(buffer.area, i) + 1),
            #[trigger] buffer.content@[i],
        ) by {
            let x = col_of(buffer.area, i);
            let y = row_of(buffer.area, i);
            crate::buffer::lemma_index_position(area, i);
            assert(filled.in_grid(x, 2 * y));
            assert(filled.in_grid(x, 2 * y + 1));
            assert(filled.point(x, 2 * y) == last_at(pixels, x, 2 * y));
            assert(filled.point(x, 2 * y + 1) == last_at(pixels, x, 2 * y + 1));
        }
    }
}

/// Whether `block` can be placed against a cell store of `len` cells;
/// see [`pixels_fit`].
fn fits_store(block: &PlacedPixels, len: usize) -> (b: bool)
    ensures
        b == pixels_fit(*block, len as int),
{
    if !(block.start <= block.end && block.end <= len && block.width > 0 && block.width <= i32::MAX as usize
        && block.height <= i32::MAX as usize) {
        return false;
    }
    let span = (block.end - block.start) as u64;
    let (width, height) = (block.width as u64, block.height as u64);
    assert(width * height <= 0x7fff_ffff * 0x7fff_ffff) by (nonlinear_arith)
        requires
            width <= 0x7fff_ffff,
            height <= 0x7fff_ffff,
    ;
    if span > width * height {
        return false;
    }
    let x0 = block.anchor.0 as i64 - (block.width / 2) as i64;
    let y0 = block.anchor.1 as i64 - (block.height / 2) as i64;
    x0 >= i32::MIN as i64 && x0 + block.width as i64 <= i32::MAX as i64 && y0 >= i32::MIN as i64 && y0
        + block.height as i64 <= i32::MAX as i64
}

/// A braille grid's dots and samples after setting `pixels` in order.
pub open spec fn dots_set(cells: Rect, model: (Seq<u8>, Seq<Seq<Color>>), pixels: Seq<(u16, u16, Color)>) -> (
    Seq<u8>,
    Seq<Seq<Color>>,
)
    decreases pixels.len(),
{
    if pixels.len() == 0 {
        model
    } else {
        let p = pixels.last();
        set_model(cells, dots_set(cells, model, pixels.drop_last()), p.0 as int, p.1 as int, p.2)
    }
}

/// Sets pixel sprites as braille dots on a grid refit to `area`: the
/// blocks sharing a render layer with the `camera` mask set their pixels
/// in order, each adding its dot and its color to the dot's cell.
/// Resolving the grid, with each cell's color averaged from its samples,
/// draws them.
pub fn set_braille_pixels(
    area: Rect,
    camera: RenderLayers,
    blocks: &[PlacedPixels],
    cells: &[Option<Color>],
    grid: &mut BrailleGrid,
)
    ensures
        final(grid).wf(),
        final(grid).cells() == area,
        final(grid).model() == dots_set(
            area,
            (
                Seq::new((area.width * area.height) as nat, |i: int| 0u8),
                Seq::new((area.width * area.height) as nat, |i: int| Seq::<Color>::empty()),
            ),
            placed_pixels(camera, blocks@, cells@),
        ),
{
    grid.reset(area);
    let ghost empty = grid.model();
    let mut k: usize = 0;
    proof {
        assert(blocks@.take(0) =~= Seq::<PlacedPixels>::empty());
    }
    while k < blocks.len()
        invariant
            k <= blocks@.len(),
            grid.wf(),
            grid.cells() == area,
            grid.model() == dots_set(area, empty, placed_pixels(camera, blocks@.take(k as int), cells@)),
        decreases blocks@.len() - k,
    {
        let ghost done = placed_pixels(camera, blocks@.take(k as int), cells@);
        proof {
            assert(blocks@.take(k as int + 1).drop_last() =~= blocks@.take(k as int));
            assert(blocks@.take(k as int + 1).last() == blocks@[k as int]);
        }
        let block = blocks[k];
        if camera.intersects(block.layers) && fits_store(&block, cells.len()) {
            let pixels = block_pixels(cells, block.start, block.end, block.width, block.height, block.anchor);
            let mut j: usize = 0;
            proof {
                assert(done + pixels@.take(0) =~= done);
            }
            while j < pixels.len()
                invariant
                    j <= pixels@.len(),
                    grid.wf(),
                    grid.cells() == area,
                    grid.model() == dots_set(area, empty, done + pixels@.take(j as int)),
                decreases pixels@.len() - j,
            {
                proof {
                    let next = done + pixels@.take(j as int + 1);
                    assert(next.drop_last() =~= done + pixels@.take(j as int));
                    assert(next.last() == pixels@[j as int]);
                }
                let (x, y, color) = pixels[j];
                grid.set(x, y, color);
                j = j + 1;
            }
            proof {
                assert(pixels@.take(j as int) =~= pixels@);
            }
        }
        k = k + 1;
    }
    proof {
        assert(blocks@.take(k as int) =~= blocks@);
    }
}

} // verus!
