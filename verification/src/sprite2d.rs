//! 2d sprites and how they land in a camera buffer.
//!
//! Glyph sprites stamp text straight into cells: each grapheme at its
//! column, a wide one hiding the cells it covers, spaces left transparent.
//! Pixel sprites resolve their rows of palette characters into colored
//! subcells, mirrored if asked, and each pixel is placed relative to the
//! block's projected anchor.

use vstd::prelude::*;

use crate::buffer::{blank_view, Buffer, CellView};
use crate::compositor::{cell_at, sound};
use crate::draw::{put, with_style, with_symbol};
use crate::geometry::Rect;
use crate::strings::{chars_of, string_of_chars};
use crate::style::{Color, Style};
use crate::unicode::{graphemes, str_width, unicode_graphemes, unicode_str_width};

verus! {

/// How a 2d camera draws pixels: two per cell, one above the other, or a
/// 2x4 braille dot grid per cell.
#[derive(Clone, Copy, Debug, PartialEq, Eq, Structural)]
pub enum SubcellMode {
    /// Two pixels per cell.
    Halfblock,
    /// Eight dots per cell.
    Braille,
}

impl Default for SubcellMode {
    /// Halfblocks.
    fn default() -> (m: SubcellMode)
        ensures
            m == SubcellMode::Halfblock,
    {
        SubcellMode::Halfblock
    }
}

/// A single subcell point drawn at halfblock resolution, beneath every
/// glyph; among pixels and pixel blocks the higher depth is in front.
#[derive(Clone, Copy, Debug, PartialEq, Eq, Structural)]
pub struct Pixel {
    /// The point's color.
    pub color: Color,
}

/// A block of pixels drawn from text: each character of each row is looked
/// up in the palette, and characters without an entry stay transparent.
#[derive(Debug)]
pub struct PixelBlock {
    /// The rows of palette characters.
    pub rows: Vec<String>,
    /// Which color each character stands for.
    pub palette: Vec<(char, Color)>,
    /// Whether each row reads right to left.
    pub mirrored: bool,
}

/// The rows of `s`: the pieces between newlines, in order.
pub open spec fn split_rows(s: Seq<char>) -> Seq<Seq<char>>
    decreases s.len(),
{
    if s.len() == 0 {
        seq![Seq::empty()]
    } else {
        let prev = split_rows(s.drop_last());
        if s.last() == '\n' {
            prev.push(Seq::empty())
        } else {
            prev.update(prev.len() - 1, prev.last().push(s.last()))
        }
    }
}

proof fn lemma_split_rows_nonempty(s: Seq<char>)
    ensures
        split_rows(s).len() >= 1,
    decreases s.len(),
{
    if s.len() > 0 {
        lemma_split_rows_nonempty(s.drop_last());
    }
}

/// The rows of `text`, split at each newline.
pub fn rows_of(text: &str) -> (rows: Vec<String>)
    ensures
        rows@.len() == split_rows(text@).len(),
        forall|i: int| 0 <= i < rows@.len() ==> #[trigger] rows@[i]@ == split_rows(text@)[i],
{
    let chars = chars_of(text);
    let mut rows: Vec<String> = Vec::new();
    let mut current: Vec<char> = Vec::new();
    let mut i: usize = 0;
    proof {
        assert(chars@.take(0) =~= Seq::<char>::empty());
    }
    while i < chars.len()
        invariant
            i <= chars@.len(),
            chars@ == text@,
            rows@.len() + 1 == split_rows(chars@.take(i as int)).len(),
            forall|k: int| 0 <= k < rows@.len() ==> #[trigger] rows@[k]@ == split_rows(chars@.take(i as int))[k],
            current@ == split_rows(chars@.take(i as int)).last(),
        decreases chars@.len() - i,
    {
        let ghost before = split_rows(chars@.take(i as int));
        proof {
            assert(chars@.take(i as int + 1).drop_last() =~= chars@.take(i as int));
            lemma_split_rows_nonempty(chars@.take(i as int));
        }
        if chars[i] == '\n' {
            rows.push(string_of_chars(current.as_slice()));
            current = Vec::new();
        } else {
            current.push(chars[i]);
        }
        i = i + 1;
    }
    proof {
        assert(chars@.take(i as int) =~= chars@);
        lemma_split_rows_nonempty(chars@);
    }
    rows.push(string_of_chars(current.as_slice()));
    rows
}

impl PixelBlock {
    /// A block from `text`, one row per line, colored by `palette`; not
    /// mirrored.
    pub fn new(text: &str, palette: Vec<(char, Color)>) -> (b: PixelBlock)
        ensures
            b.rows@.len() == split_rows(text@).len(),
            forall|i: int| 0 <= i < b.rows@.len() ==> #[trigger] b.rows@[i]@ == split_rows(text@)[i],
            b.palette@ == palette@,
            !b.mirrored,
    {
        PixelBlock { rows: rows_of(text), palette, mirrored: false }
    }

    /// Sets whether each row reads right to left.
    pub fn mirrored(self, mirrored: bool) -> (b: PixelBlock)
        ensures
            b.rows == self.rows,
            b.palette == self.palette,
            b.mirrored == mirrored,
    {
        PixelBlock { mirrored, ..self }
    }
}

/// The color the first palette entry for `symbol` gives; `None` when no
/// entry names it.
pub open spec fn palette_spec(palette: Seq<(char, Color)>, symbol: char) -> Option<Color>
    decreases palette.len(),
{
    if palette.len() == 0 {
        None
    } else if palette[0].0 == symbol {
        Some(palette[0].1)
    } else {
        palette_spec(palette.drop_first(), symbol)
    }
}

/// The color the first palette entry for `symbol` gives; see
/// [`palette_spec`].
pub fn palette_color(palette: &[(char, Color)], symbol: char) -> (c: Option<Color>)
    ensures
        c == palette_spec(palette@, symbol),
{
    let mut i: usize = 0;
    proof {
        assert(palette@.skip(0) =~= palette@);
    }
    while i < palette.len()
        invariant
            i <= palette@.len(),
            palette_spec(palette@.skip(i as int), symbol) == palette_spec(palette@, symbol),
        decreases palette@.len() - i,
    {
        proof {
            assert(palette@.skip(i as int).drop_first() =~= palette@.skip(i as int + 1));
        }
        if palette[i].0 == symbol {
            return Some(palette[i].1);
        }
        i = i + 1;
    }
    proof {
        assert(palette@.skip(i as int) =~= Seq::<(char, Color)>::empty());
    }
    None
}

/// The widest of `rows`, in characters.
pub open spec fn widest(rows: Seq<Seq<char>>) -> nat
    decreases rows.len(),
{
    if rows.len() == 0 {
        0
    } else {
        let w = widest(rows.drop_last());
        if rows.last().len() > w {
            rows.last().len()
        } else {
            w
        }
    }
}

/// One row of pixels: its characters' palette colors, padded with
/// transparent pixels to `width`, reversed if mirrored.
pub open spec fn pixel_row(row: Seq<char>, palette: Seq<(char, Color)>, width: nat, mirrored: bool) -> Seq<
    Option<Color>,
> {
    let colors = Seq::new(
        width,
        |i: int|
            if i < row.len() {
                palette_spec(palette, row[i])
            } else {
                None
            },
    );
    if mirrored {
        colors.reverse()
    } else {
        colors
    }
}

/// Every row of pixels, one after another.
pub open spec fn pixel_rows(rows: Seq<Seq<char>>, palette: Seq<(char, Color)>, width: nat, mirrored: bool) -> Seq<
    Option<Color>,
>
    decreases rows.len(),
{
    if rows.len() == 0 {
        Seq::empty()
    } else {
        pixel_rows(rows.drop_last(), palette, width, mirrored) + pixel_row(
            rows.last(),
            palette,
            width,
            mirrored,
        )
    }
}

/// The views of a block's rows.
pub open spec fn row_views(rows: Seq<String>) -> Seq<Seq<char>> {
    rows.map_values(|r: String| r@)
}

/// Appends a block's pixels to `cells`, row by row, each row padded to the
/// widest; returns that width.
pub fn resolve_pixels(block: &PixelBlock, cells: &mut Vec<Option<Color>>) -> (width: usize)
    requires
        old(cells)@.len() + widest(row_views(block.rows@)) * block.rows@.len() <= usize::MAX,
    ensures
        width == widest(row_views(block.rows@)),
        final(cells)@ == old(cells)@ + pixel_rows(
            row_views(block.rows@),
            block.palette@,
            width as nat,
            block.mirrored,
        ),
{
    let ghost views = row_views(block.rows@);
    let mut rows: Vec<Vec<char>> = Vec::new();
    let mut width: usize = 0;
    let mut r: usize = 0;
    while r < block.rows.len()
        invariant
            r <= block.rows@.len(),
            views == row_views(block.rows@),
            rows@.len() == r,
            forall|k: int| 0 <= k < r ==> #[trigger] rows@[k]@ == views[k],
            width == widest(views.take(r as int)),
        decreases block.rows@.len() - r,
    {
        let chars = chars_of(block.rows[r].as_str());
        proof {
            assert(views.take(r as int + 1).drop_last() =~= views.take(r as int));
        }
        if chars.len() > width {
            width = chars.len();
        }
        rows.push(chars);
        r = r + 1;
    }
    proof {
        assert(views.take(r as int) =~= views);
        lemma_widest_bounds(views);
    }
    let ghost base = cells@;
    let mut r: usize = 0;
    while r < rows.len()
        invariant
            r <= rows@.len(),
            rows@.len() == views.len(),
            forall|k: int| 0 <= k < rows@.len() ==> #[trigger] rows@[k]@ == views[k],
            forall|k: int| 0 <= k < views.len() ==> (#[trigger] views[k]).len() <= width,
            width == widest(views),
            base.len() + width * views.len() <= usize::MAX,
            cells@ == base + pixel_rows(views.take(r as int), block.palette@, width as nat, block.mirrored),
            cells@.len() == base.len() + width * r,
        decreases rows@.len() - r,
    {
        let row = &rows[r];
        let start = cells.len();
        proof {
            assert(views.take(r as int + 1).drop_last() =~= views.take(r as int));
            assert(width * r + width == width * (r + 1)) by (nonlinear_arith);
            assert(width * (r + 1) <= width * views.len()) by (nonlinear_arith)
                requires
                    r + 1 <= views.len(),
            ;
        }
        let mut c: usize = 0;
        while c < width
            invariant
                c <= width,
                start == cells@.len() - c,
                start + width <= usize::MAX,
                row@ == views[r as int],
                row@.len() <= width,
                cells@.take(start as int) == base + pixel_rows(
                    views.take(r as int),
                    block.palette@,
                    width as nat,
                    block.mirrored,
                ),
                forall|q: int|
                    0 <= q < c ==> #[trigger] cells@[start + q] == (if q < row@.len() {
                        palette_spec(block.palette@, row@[q])
                    } else {
                        None
                    }),
            decreases width - c,
        {
            let color = if c < row.len() {
                palette_color(block.palette.as_slice(), row[c])
            } else {
                None
            };
            let ghost before = cells@;
            cells.push(color);
            proof {
                assert(cells@.take(start as int) =~= before.take(start as int));
            }
            c = c + 1;
        }
        proof {
            assert forall|q: int| 0 <= q < width implies #[trigger] cells@.skip(start as int)[q] == (if q
                < row@.len() {
                palette_spec(block.palette@, row@[q])
            } else {
                None
            }) by {
                assert(cells@.skip(start as int)[q] == cells@[start + q]);
            }
        }
        if block.mirrored {
            let mut a: usize = start;
            let mut b: usize = start + width;
            let ghost unmirrored = cells@;
            while b - a > 1
                invariant
                    start <= a,
                    a <= b,
                    b <= start + width,
                    a - start == start + width - b,
                    cells@.len() == unmirrored.len(),
                    unmirrored.len() == start + width,
                    forall|q: int| 0 <= q < start ==> cells@[q] == unmirrored[q],
                    forall|q: int|
                        a <= q < b ==> #[trigger] cells@[q] == unmirrored[q],
                    forall|q: int|
                        start <= q < a || b <= q < start + width ==> #[trigger] cells@[q]
                            == unmirrored[2 * start + width - 1 - q],
                decreases b - a,
            {
                let left = cells[a];
                let right = cells[b - 1];
                cells.set(a, right);
                cells.set(b - 1, left);
                a = a + 1;
                b = b - 1;
            }
            proof {
                assert(cells@.take(start as int) =~= unmirrored.take(start as int));
                let colors = unmirrored.skip(start as int);
                assert forall|q: int| 0 <= q < width implies #[trigger] cells@.skip(start as int)[q]
                    == colors.reverse()[q] by {
                    assert(cells@.skip(start as int)[q] == cells@[start + q]);
                    assert(colors.reverse()[q] == colors[width - 1 - q]);
                    assert(colors[width - 1 - q] == unmirrored[start + (width - 1 - q)]);
                    if a <= start + q < b {
                        assert(b == a + 1 || a == b);
                        assert(start + q == 2 * start + width - 1 - (start + q));
                    }
                }
                assert(cells@.skip(start as int) =~= colors.reverse());
                assert(cells@.skip(start as int) =~= pixel_row(
                    views[r as int],
                    block.palette@,
                    width as nat,
                    block.mirrored,
                ));
                assert(cells@ =~= cells@.take(start as int) + cells@.skip(start as int));
            }
        } else {
            proof {
                assert(cells@.skip(start as int) =~= pixel_row(
                    views[r as int],
                    block.palette@,
                    width as nat,
                    block.mirrored,
                ));
                assert(cells@ =~= cells@.take(start as int) + cells@.skip(start as int));
            }
        }
        r = r + 1;
    }
    proof {
        assert(views.take(r as int) =~= views);
    }
    width
}

/// The buffer cell at viewport-relative `(column, row)`, if the buffer
/// holds it.
pub open spec fn cell_pos(area: Rect, column: int, row: int) -> Option<(int, int)> {
    if 0 <= column < area.width && 0 <= row < area.height {
        Some((area.x + column, area.y + row))
    } else {
        None
    }
}

/// The buffer cell at viewport-relative `(column, row)`; see [`cell_pos`].
pub fn cell_at_offset(area: Rect, column: i32, row: i32) -> (r: Option<(u16, u16)>)
    requires
        area.fits(),
    ensures
        r matches Some(p) ==> cell_pos(area, column as int, row as int) == Some((p.0 as int, p.1 as int)),
        r is None ==> cell_pos(area, column as int, row as int) is None,
{
    if column < 0 || row < 0 || column > 0xffff || row > 0xffff {
        return None;
    }
    let c = column as u16;
    let r = row as u16;
    if c >= area.width || r >= area.height {
        return None;
    }
    Some((area.x + c, area.y + r))
}

/// The cells `from..to` of `row` hidden behind a wide grapheme: blanked
/// where the buffer holds them.
pub open spec fn hide_cells(m: (Rect, Seq<CellView>), from: int, to: int, row: int) -> (
    Rect,
    Seq<CellView>,
)
    decreases to - from,
{
    if from >= to {
        m
    } else {
        let next = match cell_pos(m.0, from, row) {
            Some(p) => put(m, p.0, p.1, blank_view()),
            None => m,
        };
        hide_cells(next, from + 1, to, row)
    }
}

/// A grapheme `w` columns wide stamped at viewport-relative
/// `(column, row)`: shown there in `style` and the cells it covers after
/// that blanked; nothing when the buffer does not hold its first cell.
pub open spec fn stamp_spec(
    m: (Rect, Seq<CellView>),
    g: Seq<char>,
    w: int,
    style: Style,
    column: int,
    row: int,
) -> (Rect, Seq<CellView>) {
    match cell_pos(m.0, column, row) {
        None => m,
        Some(p) => hide_cells(
            put(m, p.0, p.1, with_style(with_symbol(cell_at(m, p.0, p.1), g), style)),
            column + 1,
            column + w,
            row,
        ),
    }
}

/// Stamps a grapheme `width` columns wide at viewport-relative
/// `(column, row)`; see [`stamp_spec`].
pub fn stamp_grapheme(buffer: &mut Buffer, grapheme: &String, width: i32, style: Style, column: i32, row: i32)
    requires
        sound(old(buffer)),
        column + width <= i32::MAX,
    ensures
        sound(final(buffer)),
        final(buffer).area == old(buffer).area,
        final(buffer)@ == stamp_spec(old(buffer)@, grapheme@, width as int, style, column as int, row as int),
{
    let area = buffer.area;
    let (x, y) = match cell_at_offset(area, column, row) {
        Some(p) => p,
        None => return,
    };
    buffer.put_symbol(x, y, grapheme, style);
    let end = column + width;
    let mut c = column + 1;
    let ghost target = stamp_spec(old(buffer)@, grapheme@, width as int, style, column as int, row as int);
    while c < end
        invariant
            sound(buffer),
            buffer.area == area,
            area.fits(),
            end == column + width,
            column < c,
            hide_cells(buffer@, c as int, end as int, row as int) == target,
        decreases end - c,
    {
        if let Some((hx, hy)) = cell_at_offset(area, c, row) {
            buffer.reset_at(hx, hy);
        }
        c = c + 1;
    }
}

/// Whether stamping graphemes of widths `ws` from `column` keeps every
/// column in `i32`: each nonzero width advances the column, and the cells
/// it covers must be addressable.
pub open spec fn columns_fit(ws: Seq<int>, column: int) -> bool
    decreases ws.len(),
{
    ws.len() == 0 || (column + ws[0] <= i32::MAX && i32::MIN <= column + ws[0] && columns_fit(
        ws.drop_first(),
        column + ws[0],
    ))
}

/// Graphemes of widths `ws` stamped left to right from viewport-relative
/// `(column, row)`: zero-width graphemes are skipped, a space is
/// transparent but still advances, and every other grapheme is stamped.
pub open spec fn stamp_items(
    m: (Rect, Seq<CellView>),
    gs: Seq<Seq<char>>,
    ws: Seq<int>,
    style: Style,
    column: int,
    row: int,
) -> (Rect, Seq<CellView>)
    decreases gs.len(),
{
    if gs.len() == 0 || ws.len() == 0 {
        m
    } else if ws[0] == 0 {
        stamp_items(m, gs.drop_first(), ws.drop_first(), style, column, row)
    } else {
        let stamped = if gs[0] == seq![' '] {
            m
        } else {
            stamp_spec(m, gs[0], ws[0], style, column, row)
        };
        stamp_items(stamped, gs.drop_first(), ws.drop_first(), style, column + ws[0], row)
    }
}

/// Stamps graphemes of the given widths left to right from
/// viewport-relative `origin`; see [`stamp_items`].
pub fn stamp_graphemes(buffer: &mut Buffer, gs: &[String], widths: &[i32], style: Style, origin: (i32, i32))
    requires
        sound(old(buffer)),
        gs@.len() == widths@.len(),
        columns_fit(widths@.map_values(|w: i32| w as int), origin.0 as int),
    ensures
        sound(final(buffer)),
        final(buffer).area == old(buffer).area,
        final(buffer)@ == stamp_items(
            old(buffer)@,
            gs@.map_values(|g: String| g@),
            widths@.map_values(|w: i32| w as int),
            style,
            origin.0 as int,
            origin.1 as int,
        ),
{
    let ghost all_g = gs@.map_values(|g: String| g@);
    let ghost all_w = widths@.map_values(|w: i32| w as int);
    let ghost target = stamp_items(buffer@, all_g, all_w, style, origin.0 as int, origin.1 as int);
    let (mut column, row) = origin;
    let mut k: usize = 0;
    proof {
        assert(all_g.skip(0) =~= all_g);
        assert(all_w.skip(0) =~= all_w);
    }
    while k < gs.len()
        invariant
            k <= gs@.len(),
            gs@.len() == widths@.len(),
            all_g == gs@.map_values(|g: String| g@),
            all_w == widths@.map_values(|w: i32| w as int),
            sound(buffer),
            buffer.area == old(buffer).area,
            columns_fit(all_w.skip(k as int), column as int),
            stamp_items(buffer@, all_g.skip(k as int), all_w.skip(k as int), style, column as int, row as int)
                == target,
        decreases gs@.len() - k,
    {
        proof {
            assert(all_g.skip(k as int).drop_first() =~= all_g.skip(k as int + 1));
            assert(all_w.skip(k as int).drop_first() =~= all_w.skip(k as int + 1));
            assert(all_w.skip(k as int)[0] == widths@[k as int] as int);
            assert(all_g.skip(k as int)[0] == gs@[k as int]@);
        }
        let width = widths[k];
        if width != 0 {
            let space = crate::strings::string_of_char(' ');
            if !crate::strings::same_text(&gs[k], &space) {
                stamp_grapheme(buffer, &gs[k], width, style, column, row);
            }
            column = column + width;
        }
        k = k + 1;
    }
    proof {
        assert(all_g.skip(k as int) =~= Seq::<Seq<char>>::empty());
    }
}

/// The widths a row's graphemes stamp with: each grapheme's display
/// width, as an `i32`.
pub open spec fn stamp_widths(gs: Seq<Seq<char>>) -> Seq<int> {
    gs.map_values(|g: Seq<char>| (unicode_str_width(g) as i32) as int)
}

/// Stamps one row of glyph text from viewport-relative `origin`: its
/// graphemes left to right ([`stamp_items`]). Returns `false`, leaving the
/// buffer untouched, when the row is so wide its columns would leave
/// `i32`.
pub fn stamp_row(buffer: &mut Buffer, row: &str, style: Style, origin: (i32, i32)) -> (stamped: bool)
    requires
        sound(old(buffer)),
    ensures
        sound(final(buffer)),
        final(buffer).area == old(buffer).area,
        stamped == columns_fit(stamp_widths(unicode_graphemes(row@)), origin.0 as int),
        stamped ==> final(buffer)@ == stamp_items(
            old(buffer)@,
            unicode_graphemes(row@),
            stamp_widths(unicode_graphemes(row@)),
            style,
            origin.0 as int,
            origin.1 as int,
        ),
        !stamped ==> final(buffer)@ == old(buffer)@,
{
    let gs = graphemes(row);
    let ghost all = unicode_graphemes(row@);
    let mut widths: Vec<i32> = Vec::new();
    let mut k: usize = 0;
    while k < gs.len()
        invariant
            k <= gs@.len(),
            gs@.len() == all.len(),
            forall|i: int| 0 <= i < gs@.len() ==> #[trigger] gs@[i]@ == all[i],
            widths@.len() == k,
            forall|i: int| 0 <= i < k ==> #[trigger] widths@[i] as int == stamp_widths(all)[i],
        decreases gs@.len() - k,
    {
        let w = str_width(gs[k].as_str());
        widths.push(#[verifier::truncate] (w as i32));
        k = k + 1;
    }
    proof {
        assert(widths@.map_values(|w: i32| w as int) =~= stamp_widths(all));
        assert(gs@.map_values(|g: String| g@) =~= all);
    }
    // The columns must stay in i32 the whole way along.
    let mut column: i64 = origin.0 as i64;
    let mut j: usize = 0;
    let ghost ws = stamp_widths(all);
    proof {
        assert(ws.skip(0) =~= ws);
    }
    while j < widths.len()
        invariant
            j <= widths@.len(),
            widths@.len() == ws.len(),
            forall|i: int| 0 <= i < widths@.len() ==> #[trigger] widths@[i] as int == ws[i],
            i32::MIN <= column <= i32::MAX,
            columns_fit(ws.skip(j as int), column as int) == columns_fit(ws, origin.0 as int),
            ws == stamp_widths(unicode_graphemes(row@)),
            sound(buffer),
            buffer@ == old(buffer)@,
            buffer.area == old(buffer).area,
        decreases widths@.len() - j,
    {
        proof {
            assert(ws.skip(j as int).drop_first() =~= ws.skip(j as int + 1));
            assert(ws.skip(j as int)[0] == ws[j as int]);
        }
        let next = column + widths[j] as i64;
        if next > i32::MAX as i64 || next < i32::MIN as i64 {
            proof {
                let rest = ws.skip(j as int);
                assert(rest.len() > 0);
                assert(widths@[j as int] as int == ws[j as int]);
                assert(!(column + rest[0] <= i32::MAX && i32::MIN <= column + rest[0]));
                assert(!columns_fit(rest, column as int));
            }
            return false;
        }
        column = next;
        j = j + 1;
    }
    proof {
        assert(ws.skip(j as int) =~= Seq::<int>::empty());
    }
    stamp_graphemes(buffer, gs.as_slice(), widths.as_slice(), style, origin);
    true
}

/// The pixels of a block anchored at `anchor`, as `(x, y, color)`: the
/// block is centered on its anchor, and transparent pixels and those at
/// negative or too-large coordinates are left out, in row-major order.
pub open spec fn block_pixels_spec(cells: Seq<Option<Color>>, width: int, height: int, anchor: (i32, i32)) -> Seq<
    (u16, u16, Color),
>
    decreases cells.len(),
{
    if cells.len() == 0 {
        Seq::empty()
    } else {
        let prev = block_pixels_spec(cells.drop_last(), width, height, anchor);
        let index = cells.len() - 1;
        let x = anchor.0 - width / 2 + index % width;
        let y = anchor.1 - height / 2 + index / width;
        match cells.last() {
            Some(color) => if 0 <= x <= 0xffff && 0 <= y <= 0xffff {
                prev.push((x as u16, y as u16, color))
            } else {
                prev
            },
            None => prev,
        }
    }
}

/// The pixels of a block of `width` by `height` whose cells are
/// `cells[start..end]`, anchored at `anchor`; see [`block_pixels_spec`].
pub fn block_pixels(
    cells: &[Option<Color>],
    start: usize,
    end: usize,
    width: usize,
    height: usize,
    anchor: (i32, i32),
) -> (pixels: Vec<(u16, u16, Color)>)
    requires
        start <= end <= cells@.len(),
        width > 0,
        width <= i32::MAX,
        height <= i32::MAX,
        end - start <= width * height,
        i32::MIN <= anchor.0 - width as int / 2,
        anchor.0 - width as int / 2 + width <= i32::MAX,
        i32::MIN <= anchor.1 - height as int / 2,
        anchor.1 - height as int / 2 + height <= i32::MAX,
    ensures
        pixels@ == block_pixels_spec(cells@.subrange(start as int, end as int), width as int, height as int, anchor),
{
    let origin_x = anchor.0 - (width as i32) / 2;
    let origin_y = anchor.1 - (height as i32) / 2;
    let ghost block = cells@.subrange(start as int, end as int);
    let mut out: Vec<(u16, u16, Color)> = Vec::new();
    let mut index: usize = 0;
    while index < end - start
        invariant
            start <= end <= cells@.len(),
            block == cells@.subrange(start as int, end as int),
            width > 0,
            width <= i32::MAX,
            height <= i32::MAX,
            end - start <= width * height,
            origin_x == anchor.0 - width as int / 2,
            origin_y == anchor.1 - height as int / 2,
            origin_x + width <= i32::MAX,
            origin_y + height <= i32::MAX,
            index <= end - start,
            out@ == block_pixels_spec(block.take(index as int), width as int, height as int, anchor),
        decreases end - start - index,
    {
        proof {
            assert(block.take(index as int + 1).drop_last() =~= block.take(index as int));
            assert(index / width < height) by (nonlinear_arith)
                requires
                    index < end - start,
                    end - start <= width * height,
                    width > 0,
            ;
            assert(index % width < width) by (nonlinear_arith)
                requires
                    width > 0,
            ;
        }
        if let Some(color) = cells[start + index] {
            let x = origin_x + (index % width) as i32;
            let y = origin_y + (index / width) as i32;
            if x >= 0 && x <= 0xffff && y >= 0 && y <= 0xffff {
                out.push((x as u16, y as u16, color));
            }
        }
        index = index + 1;
    }
    proof {
        assert(block.take(index as int) =~= block);
    }
    out
}

proof fn lemma_widest_bounds(rows: Seq<Seq<char>>)
    ensures
        forall|k: int| 0 <= k < rows.len() ==> (#[trigger] rows[k]).len() <= widest(rows),
    decreases rows.len(),
{
    if rows.len() > 0 {
        lemma_widest_bounds(rows.drop_last());
        assert forall|k: int| 0 <= k < rows.len() implies (#[trigger] rows[k]).len() <= widest(rows) by {
            if k < rows.len() - 1 {
                assert(rows[k] == rows.drop_last()[k]);
            }
        }
    }
}

} // verus!
