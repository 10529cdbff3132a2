//! Painting UI nodes into camera buffers: background, border and text,
//! each clipped to the node's visible cells.
//!
//! A node paints inside its rect intersected with the camera buffer and
//! its clip. Its background fills those cells with spaces; a border draws
//! box-drawing characters along the rect's edge, with rounded corners where
//! asked; text wraps to the content box and is written row by row.
//! Gradients are sampled per cell before painting and arrive as colors.

use vstd::prelude::*;

use crate::buffer::{in_area, index_in, lemma_area_fits, Buffer, CellView};
use crate::compositor::{cell_at, sound};
use crate::draw::{
    lemma_region_ends, lemma_region_step, put, region_map, set_stringn_spec, with_bg, with_fg,
    with_symbol,
};
use crate::geometry::{lemma_intersection_fits, lemma_intersection_within, sat_add, sat_sub, Rect};
use crate::strings::string_of_char;
use crate::style::{Color, Style};
use crate::text::{flatten, lemma_normalized_unique, lines_match, views_of, wrap_spans, wrap_spec, Seg, StyledChar};
use crate::unicode::{str_width, unicode_str_width};
use crate::viewport::within;

verus! {

/// The cell rects of a laid-out node: its border box, content box, and
/// the part left visible by clipping.
#[derive(Clone, Copy, Debug, PartialEq, Eq, Structural)]
pub struct ComputedNodeRect {
    /// The border box.
    pub rect: Rect,
    /// The content box.
    pub content: Rect,
    /// The border box clipped by the node's clip.
    pub visible: Rect,
}

impl Default for ComputedNodeRect {
    /// Every rect zero.
    fn default() -> (r: ComputedNodeRect)
        ensures
            r.rect == Rect::zero_spec() && r.content == Rect::zero_spec() && r.visible == Rect::zero_spec(),
    {
        ComputedNodeRect { rect: Rect::zero(), content: Rect::zero(), visible: Rect::zero() }
    }
}

/// The rect a node covers, from its edges in cells relative to the
/// viewport (already rounded): `None` when it has no area.
pub open spec fn cell_rect_spec(left: u16, top: u16, right: u16, bottom: u16, viewport: Rect) -> Option<Rect> {
    if right <= left || bottom <= top {
        None
    } else {
        Some(
            Rect::new_spec(
                sat_add(viewport.x as int, left as int) as u16,
                sat_add(viewport.y as int, top as int) as u16,
                (right - left) as u16,
                (bottom - top) as u16,
            ),
        )
    }
}

/// The rect a node covers, from its rounded edges; see [`cell_rect_spec`].
pub fn cell_rect(left: u16, top: u16, right: u16, bottom: u16, viewport: Rect) -> (r: Option<Rect>)
    ensures
        r == cell_rect_spec(left, top, right, bottom, viewport),
{
    if right <= left || bottom <= top {
        return None;
    }
    Some(
        Rect::new(
            viewport.x.saturating_add(left),
            viewport.y.saturating_add(top),
            right - left,
            bottom - top,
        ),
    )
}

/// A clip in cells, from its edges relative to the viewport (already
/// clamped to it and rounded).
pub open spec fn clip_cells_spec(left: u16, top: u16, right: u16, bottom: u16, viewport: Rect) -> Rect {
    Rect::new_spec(
        sat_add(viewport.x as int, left as int) as u16,
        sat_add(viewport.y as int, top as int) as u16,
        sat_sub(right as int, left as int) as u16,
        sat_sub(bottom as int, top as int) as u16,
    )
}

/// A clip in cells, from its clamped and rounded edges; see
/// [`clip_cells_spec`].
pub fn clip_cells(left: u16, top: u16, right: u16, bottom: u16, viewport: Rect) -> (r: Rect)
    ensures
        r == clip_cells_spec(left, top, right, bottom, viewport),
{
    Rect::new(
        viewport.x.saturating_add(left),
        viewport.y.saturating_add(top),
        right.saturating_sub(left),
        bottom.saturating_sub(top),
    )
}

/// The colors of a border's four sides; a side without a color is not
/// drawn.
#[derive(Clone, Copy, Debug, PartialEq, Eq, Structural)]
pub struct BorderSides {
    /// Top side.
    pub top: Option<Color>,
    /// Right side.
    pub right: Option<Color>,
    /// Bottom side.
    pub bottom: Option<Color>,
    /// Left side.
    pub left: Option<Color>,
}

/// The color a border side draws in: none when the side is too thin to
/// show; its own color when it has one; the terminal default when only a
/// border gradient colors it; none otherwise.
pub open spec fn side_color_spec(visible: bool, color: Option<Color>, has_gradient: bool) -> Option<Color> {
    if !visible {
        None
    } else {
        match color {
            Some(c) => Some(c),
            None => if has_gradient {
                Some(Color::Reset)
            } else {
                None
            },
        }
    }
}

/// The color a border side draws in; see [`side_color_spec`].
pub fn side_color(visible: bool, color: Option<Color>, has_gradient: bool) -> (c: Option<Color>)
    ensures
        c == side_color_spec(visible, color, has_gradient),
{
    if !visible {
        return None;
    }
    match color {
        Some(c) => Some(c),
        None => if has_gradient {
            Some(Color::Reset)
        } else {
            None
        },
    }
}

/// A node's border from its sides - whether each is wide enough to show,
/// and its color - in the order top, right, bottom, left: `None` when no
/// side draws.
pub fn border_sides(
    top: (bool, Option<Color>),
    right: (bool, Option<Color>),
    bottom: (bool, Option<Color>),
    left: (bool, Option<Color>),
    has_gradient: bool,
) -> (b: Option<BorderSides>)
    ensures
        ({
            let sides = BorderSides {
                top: side_color_spec(top.0, top.1, has_gradient),
                right: side_color_spec(right.0, right.1, has_gradient),
                bottom: side_color_spec(bottom.0, bottom.1, has_gradient),
                left: side_color_spec(left.0, left.1, has_gradient),
            };
            b == if sides.top is Some || sides.right is Some || sides.bottom is Some || sides.left is Some {
                Some(sides)
            } else {
                None
            }
        }),
{
    let sides = BorderSides {
        top: side_color(top.0, top.1, has_gradient),
        right: side_color(right.0, right.1, has_gradient),
        bottom: side_color(bottom.0, bottom.1, has_gradient),
        left: side_color(left.0, left.1, has_gradient),
    };
    if sides.top.is_some() || sides.right.is_some() || sides.bottom.is_some() || sides.left.is_some() {
        Some(sides)
    } else {
        None
    }
}

/// Which corners of a border are rounded.
#[derive(Clone, Copy, Debug, PartialEq, Eq, Structural)]
pub struct RoundedCorners {
    /// Top-left corner.
    pub top_left: bool,
    /// Top-right corner.
    pub top_right: bool,
    /// Bottom-right corner.
    pub bottom_right: bool,
    /// Bottom-left corner.
    pub bottom_left: bool,
}

/// Text to write inside a node: styled spans and the content box they wrap
/// to.
#[derive(Debug)]
pub struct TextRun {
    /// The styled spans.
    pub spans: Vec<Seg>,
    /// The content box.
    pub content: Rect,
}

/// A UI node ready to paint.
#[derive(Debug)]
pub struct BuiNode {
    /// The node's border box.
    pub rect: Rect,
    /// The clip its ancestors impose, if any.
    pub clip: Option<Rect>,
    /// A solid background color.
    pub background: Option<Color>,
    /// A border, by side color.
    pub border: Option<BorderSides>,
    /// Which border corners are rounded.
    pub corners: RoundedCorners,
    /// A background gradient sampled at each cell of `rect`, row-major;
    /// `None` where the gradient leaves the cell.
    pub background_gradient: Option<Vec<Option<Color>>>,
    /// A border gradient sampled at each cell of `rect`, row-major; the side
    /// color shows where it leaves the cell.
    pub border_gradient: Option<Vec<Option<Color>>>,
    /// Text to write.
    pub text: Option<TextRun>,
}

/// The cells a node paints: its rect within the buffer area and its clip.
pub open spec fn clipped_spec(rect: Rect, area: Rect, clip: Option<Rect>) -> Rect {
    let bounds = rect.intersection_spec(area);
    match clip {
        Some(c) => bounds.intersection_spec(c),
        None => bounds,
    }
}

/// The cells a node paints; see [`clipped_spec`].
pub fn clipped(rect: Rect, area: Rect, clip: Option<Rect>) -> (r: Rect)
    ensures
        r == clipped_spec(rect, area, clip),
{
    let bounds = rect.intersection(area);
    match clip {
        Some(c) => bounds.intersection(c),
        None => bounds,
    }
}

/// What a background fill makes of a cell: a space on `color`.
pub open spec fn filled(color: Color) -> spec_fn(CellView, int, int) -> CellView {
    |v: CellView, x: int, y: int| with_bg(with_symbol(v, seq![' ']), color)
}

/// Fills the cells of `area` with spaces on `color`.
pub fn fill(buffer: &mut Buffer, area: Rect, color: Color)
    requires
        sound(old(buffer)),
        area.fits(),
    ensures
        sound(final(buffer)),
        final(buffer)@ == (old(buffer)@.0, region_map(
            old(buffer)@,
            area,
            area.width * area.height,
            filled(color),
        )),
{
    proof {
        lemma_area_fits(area);
        lemma_region_ends(buffer@, area, filled(color));
    }
    let n = area.area() as usize;
    let w = area.width as usize;
    let ghost m0 = buffer@;
    let mut i: usize = 0;
    while i < n
        invariant
            i <= n,
            n == area.width * area.height,
            w == area.width,
            area.fits(),
            sound(buffer),
            buffer.area == m0.0,
            m0.1.len() == m0.0.width * m0.0.height,
            buffer@ == (m0.0, region_map(m0, area, i as int, filled(color))),
        decreases n - i,
    {
        proof {
            lemma_region_step(m0, area, i as int, filled(color));
        }
        let x = area.x + (i % w) as u16;
        let y = area.y + (i / w) as u16;
        buffer.fill_at(x, y, color);
        i = i + 1;
    }
}

/// What a sampled background gradient makes of a cell: a space on the
/// sampled color, or the cell untouched where the gradient leaves it.
pub open spec fn gradient_filled(rect: Rect, samples: Seq<Option<Color>>) -> spec_fn(CellView, int, int) -> CellView {
    |v: CellView, x: int, y: int|
        if in_area(rect, x, y) {
            match samples[index_in(rect, x, y)] {
                Some(c) => with_bg(with_symbol(v, seq![' ']), c),
                None => v,
            }
        } else {
            v
        }
}

/// Paints a background gradient, sampled per cell of `rect`, over the
/// cells of `bounds`.
pub fn fill_gradient(buffer: &mut Buffer, bounds: Rect, rect: Rect, samples: &[Option<Color>])
    requires
        sound(old(buffer)),
        bounds.fits(),
        samples@.len() == rect.width * rect.height,
    ensures
        sound(final(buffer)),
        final(buffer)@ == (old(buffer)@.0, region_map(
            old(buffer)@,
            bounds,
            bounds.width * bounds.height,
            gradient_filled(rect, samples@),
        )),
{
    proof {
        lemma_area_fits(bounds);
        lemma_region_ends(buffer@, bounds, gradient_filled(rect, samples@));
    }
    let n = bounds.area() as usize;
    let w = bounds.width as usize;
    let ghost m0 = buffer@;
    let mut i: usize = 0;
    while i < n
        invariant
            i <= n,
            n == bounds.width * bounds.height,
            w == bounds.width,
            bounds.fits(),
            samples@.len() == rect.width * rect.height,
            sound(buffer),
            buffer.area == m0.0,
            m0.1.len() == m0.0.width * m0.0.height,
            buffer@ == (m0.0, region_map(m0, bounds, i as int, gradient_filled(rect, samples@))),
        decreases n - i,
    {
        proof {
            lemma_region_step(m0, bounds, i as int, gradient_filled(rect, samples@));
        }
        let x = bounds.x + (i % w) as u16;
        let y = bounds.y + (i / w) as u16;
        proof {
            crate::draw::lemma_put_same(buffer@, x as int, y as int);
        }
        if let Some(k) = rect_index(rect, x, y) {
            if let Some(c) = samples[k] {
                buffer.fill_at(x, y, c);
            }
        }
        i = i + 1;
    }
}

/// The row-major index of `(x, y)` in `rect`, if it holds that cell.
pub fn rect_index(rect: Rect, x: u16, y: u16) -> (r: Option<usize>)
    ensures
        r is Some <==> in_area(rect, x as int, y as int),
        r matches Some(k) ==> k == index_in(rect, x as int, y as int) && k < rect.width * rect.height,
{
    if x < rect.x || y < rect.y {
        return None;
    }
    let dx = (x - rect.x) as usize;
    let dy = (y - rect.y) as usize;
    if dx >= rect.width as usize || dy >= rect.height as usize {
        return None;
    }
    proof {
        crate::buffer::lemma_index_in_bounds(rect, x as int, y as int);
        lemma_area_fits(rect);
        assert(dy * rect.width <= dy * rect.width + dx);
    }
    Some(dy * (rect.width as usize) + dx)
}

/// The box-drawing character for a border cell: a corner, rounded where
/// asked, where the cell is at exactly one of the left and right ends; a
/// horizontal line otherwise.
pub open spec fn border_symbol(corners: RoundedCorners, at_left: bool, at_right: bool, at_top: bool) -> char {
    if at_left && !at_right && at_top {
        if corners.top_left {
            '╭'
        } else {
            '┌'
        }
    } else if !at_left && at_right && at_top {
        if corners.top_right {
            '╮'
        } else {
            '┐'
        }
    } else if at_left && !at_right && !at_top {
        if corners.bottom_left {
            '╰'
        } else {
            '└'
        }
    } else if !at_left && at_right && !at_top {
        if corners.bottom_right {
            '╯'
        } else {
            '┘'
        }
    } else {
        '─'
    }
}

/// The box-drawing character for a border cell; see [`border_symbol`].
pub fn symbol(corners: RoundedCorners, at_left: bool, at_right: bool, at_top: bool) -> (c: char)
    ensures
        c == border_symbol(corners, at_left, at_right, at_top),
{
    if at_left && !at_right && at_top {
        if corners.top_left {
            '╭'
        } else {
            '┌'
        }
    } else if !at_left && at_right && at_top {
        if corners.top_right {
            '╮'
        } else {
            '┐'
        }
    } else if at_left && !at_right && !at_top {
        if corners.bottom_left {
            '╰'
        } else {
            '└'
        }
    } else if !at_left && at_right && !at_top {
        if corners.bottom_right {
            '╯'
        } else {
            '┘'
        }
    } else {
        '─'
    }
}

/// The color a border cell is drawn in: the gradient's sample where it has
/// one, the side color otherwise.
pub open spec fn border_color(gradient: Option<Seq<Option<Color>>>, rect: Rect, x: int, y: int, side: Color) -> Color {
    match gradient {
        Some(g) => if in_area(rect, x, y) {
            match g[index_in(rect, x, y)] {
                Some(c) => c,
                None => side,
            }
        } else {
            side
        },
        None => side,
    }
}

/// A border cell drawn: `symbol` in its color at `(x, y)`, when the side
/// has a color and the cell is among those the node paints.
pub open spec fn put_border_spec(
    m: (Rect, Seq<CellView>),
    bounds: Rect,
    rect: Rect,
    gradient: Option<Seq<Option<Color>>>,
    x: int,
    y: int,
    symbol: char,
    color: Option<Color>,
) -> (Rect, Seq<CellView>) {
    match color {
        None => m,
        Some(side) => if bounds.contains_spec(x, y) {
            put(
                m,
                x,
                y,
                with_fg(with_symbol(cell_at(m, x, y), seq![symbol]), border_color(gradient, rect, x, y, side)),
            )
        } else {
            m
        },
    }
}

/// The view of an optional sample grid.
pub open spec fn samples_view(g: Option<&[Option<Color>]>) -> Option<Seq<Option<Color>>> {
    match g {
        Some(s) => Some(s@),
        None => None,
    }
}

/// Draws one border cell; see [`put_border_spec`].
fn put_border(
    buffer: &mut Buffer,
    bounds: Rect,
    rect: Rect,
    gradient: Option<&[Option<Color>]>,
    x: u16,
    y: u16,
    symbol: char,
    color: Option<Color>,
)
    requires
        sound(old(buffer)),
        gradient matches Some(g) ==> g@.len() == rect.width * rect.height,
    ensures
        sound(final(buffer)),
        final(buffer).area == old(buffer).area,
        final(buffer)@ == put_border_spec(
            old(buffer)@,
            bounds,
            rect,
            samples_view(gradient),
            x as int,
            y as int,
            symbol,
            color,
        ),
{
    let side = match color {
        Some(c) => c,
        None => return,
    };
    if !bounds.contains(crate::geometry::Position::new(x, y)) {
        return;
    }
    let drawn = match gradient {
        Some(g) => match rect_index(rect, x, y) {
            Some(k) => match g[k] {
                Some(c) => c,
                None => side,
            },
            None => side,
        },
        None => side,
    };
    let s = string_of_char(symbol);
    buffer.put_fg_symbol(x, y, &s, drawn);
}

/// The top and bottom edges drawn for the columns `x..right`: each column
/// draws its top cell, then its bottom cell.
pub open spec fn border_rows(
    m: (Rect, Seq<CellView>),
    bounds: Rect,
    rect: Rect,
    gradient: Option<Seq<Option<Color>>>,
    corners: RoundedCorners,
    sides: BorderSides,
    x: int,
) -> (Rect, Seq<CellView>)
    decreases rect.right_spec() - x,
{
    if x >= rect.right_spec() {
        m
    } else {
        let left = rect.x as int;
        let right = sat_sub(rect.right_spec(), 1);
        let top = rect.y as int;
        let bottom = sat_sub(rect.bottom_spec(), 1);
        let m1 = put_border_spec(
            m,
            bounds,
            rect,
            gradient,
            x,
            top,
            border_symbol(corners, x == left, x == right, true),
            sides.top,
        );
        let m2 = put_border_spec(
            m1,
            bounds,
            rect,
            gradient,
            x,
            bottom,
            border_symbol(corners, x == left, x == right, false),
            sides.bottom,
        );
        border_rows(m2, bounds, rect, gradient, corners, sides, x + 1)
    }
}

/// The left and right edges drawn for the rows `y..bottom`, skipping the
/// top and bottom rows: each row draws its left cell, then its right cell.
pub open spec fn border_columns(
    m: (Rect, Seq<CellView>),
    bounds: Rect,
    rect: Rect,
    gradient: Option<Seq<Option<Color>>>,
    sides: BorderSides,
    y: int,
) -> (Rect, Seq<CellView>)
    decreases rect.bottom_spec() - y,
{
    if y >= rect.bottom_spec() {
        m
    } else {
        let left = rect.x as int;
        let right = sat_sub(rect.right_spec(), 1);
        let top = rect.y as int;
        let bottom = sat_sub(rect.bottom_spec(), 1);
        if y == top || y == bottom {
            border_columns(m, bounds, rect, gradient, sides, y + 1)
        } else {
            let m1 = put_border_spec(m, bounds, rect, gradient, left, y, '│', sides.left);
            let m2 = put_border_spec(m1, bounds, rect, gradient, right, y, '│', sides.right);
            border_columns(m2, bounds, rect, gradient, sides, y + 1)
        }
    }
}

/// A node's border drawn: top and bottom edges first, then the sides.
pub open spec fn border_spec(
    m: (Rect, Seq<CellView>),
    bounds: Rect,
    rect: Rect,
    gradient: Option<Seq<Option<Color>>>,
    corners: RoundedCorners,
    border: Option<BorderSides>,
) -> (Rect, Seq<CellView>) {
    match border {
        None => m,
        Some(sides) => border_columns(
            border_rows(m, bounds, rect, gradient, corners, sides, rect.x as int),
            bounds,
            rect,
            gradient,
            sides,
            rect.y as int,
        ),
    }
}

/// Draws a node's border; see [`border_spec`].
pub fn paint_border(
    buffer: &mut Buffer,
    bounds: Rect,
    rect: Rect,
    gradient: Option<&[Option<Color>]>,
    corners: RoundedCorners,
    border: Option<BorderSides>,
)
    requires
        sound(old(buffer)),
        gradient matches Some(g) ==> g@.len() == rect.width * rect.height,
    ensures
        sound(final(buffer)),
        final(buffer).area == old(buffer).area,
        final(buffer)@ == border_spec(old(buffer)@, bounds, rect, samples_view(gradient), corners, border),
{
    let sides = match border {
        Some(s) => s,
        None => return,
    };
    let ghost g = samples_view(gradient);
    let left = rect.left();
    let right = rect.right().saturating_sub(1);
    let top = rect.top();
    let bottom = rect.bottom().saturating_sub(1);
    let end = rect.right();
    let ghost target = border_spec(old(buffer)@, bounds, rect, g, corners, border);
    let mut x = left;
    while x < end
        invariant
            left == rect.x,
            right == sat_sub(rect.right_spec(), 1),
            top == rect.y,
            bottom == sat_sub(rect.bottom_spec(), 1),
            end == rect.right_spec(),
            gradient matches Some(gr) ==> gr@.len() == rect.width * rect.height,
            g == samples_view(gradient),
            sound(buffer),
            buffer.area == old(buffer).area,
            rect.x <= x <= end,
            border_columns(
                border_rows(buffer@, bounds, rect, g, corners, sides, x as int),
                bounds,
                rect,
                g,
                sides,
                rect.y as int,
            ) == target,
        decreases end - x,
    {
        let c = symbol(corners, x == left, x == right, true);
        put_border(buffer, bounds, rect, gradient, x, top, c, sides.top);
        let c = symbol(corners, x == left, x == right, false);
        put_border(buffer, bounds, rect, gradient, x, bottom, c, sides.bottom);
        x = x + 1;
    }
    let stop = rect.bottom();
    let mut y = top;
    while y < stop
        invariant
            left == rect.x,
            right == sat_sub(rect.right_spec(), 1),
            top == rect.y,
            bottom == sat_sub(rect.bottom_spec(), 1),
            stop == rect.bottom_spec(),
            gradient matches Some(gr) ==> gr@.len() == rect.width * rect.height,
            g == samples_view(gradient),
            sound(buffer),
            buffer.area == old(buffer).area,
            rect.y <= y <= stop,
            border_columns(buffer@, bounds, rect, g, sides, y as int) == target,
        decreases stop - y,
    {
        if y != top && y != bottom {
            put_border(buffer, bounds, rect, gradient, left, y, '│', sides.left);
            put_border(buffer, bounds, rect, gradient, right, y, '│', sides.right);
        }
        y = y + 1;
    }
}

/// The segments of a line as plain values: each span's characters and
/// style.
pub open spec fn seg_views(line: Seq<Seg>) -> Seq<(Seq<char>, Style)> {
    line.map_values(|s: Seg| (s.0@, s.1))
}

/// The spans of one line written from column `x` of row `y`, each as far as
/// fits before `end`, stopping once the row is full.
pub open spec fn draw_segs(
    m: (Rect, Seq<CellView>),
    x: int,
    y: int,
    segs: Seq<(Seq<char>, Style)>,
    end: int,
) -> (Rect, Seq<CellView>)
    decreases segs.len(),
{
    if segs.len() == 0 || x >= end {
        m
    } else {
        let (m1, x1) = set_stringn_spec(m, x, y, segs[0].0, end - x, segs[0].1);
        draw_segs(m1, x1, y, segs.drop_first(), end)
    }
}

/// The wrapped lines from `k` on, written row by row into the content box:
/// line `k` lands on row `content.y + k`, and only rows inside both the
/// content box and `bounds` are written, from the left of both to the
/// right of both.
pub open spec fn draw_rows(
    m: (Rect, Seq<CellView>),
    lines: Seq<Seq<(Seq<char>, Style)>>,
    k: int,
    bounds: Rect,
    content: Rect,
) -> (Rect, Seq<CellView>)
    decreases lines.len() - k,
{
    if k < 0 || k >= lines.len() {
        m
    } else {
        let y = sat_add(content.y as int, (k as u16) as int);
        if y >= content.bottom_spec() || y < bounds.y || y >= bounds.bottom_spec() {
            draw_rows(m, lines, k + 1, bounds, content)
        } else {
            let end = if content.right_spec() <= bounds.right_spec() {
                content.right_spec()
            } else {
                bounds.right_spec()
            };
            let x = if content.x >= bounds.x {
                content.x as int
            } else {
                bounds.x as int
            };
            draw_rows(draw_segs(m, x, y, lines[k], end), lines, k + 1, bounds, content)
        }
    }
}

/// The lines as plain values.
pub open spec fn lines_view(lines: Seq<Vec<Seg>>) -> Seq<Seq<(Seq<char>, Style)>> {
    lines.map_values(|l: Vec<Seg>| seg_views(l@))
}

/// Wrapped lines are determined by what they spell: two sequences of
/// lines that both match the same expected lines, segment by segment
/// normalized, have the same segments - so the text a node paints does not
/// depend on which such lines drew it.
pub proof fn lemma_lines_match_unique(l1: Seq<Vec<Seg>>, l2: Seq<Vec<Seg>>, expected: Seq<Seq<StyledChar>>)
    requires
        lines_match(l1, expected),
        lines_match(l2, expected),
    ensures
        lines_view(l1) == lines_view(l2),
{
    assert forall|k: int| 0 <= k < l1.len() implies #[trigger] lines_view(l1)[k] == lines_view(l2)[k] by {
        lemma_normalized_unique(l1[k]@, l2[k]@);
        assert(seg_views(l1[k]@) =~= views_of(l1[k]@));
        assert(seg_views(l2[k]@) =~= views_of(l2[k]@));
    }
    assert(lines_view(l1) =~= lines_view(l2));
}

/// Writes wrapped lines into the content box within `bounds`; see
/// [`draw_rows`].
pub fn draw_lines(buffer: &mut Buffer, bounds: Rect, content: Rect, lines: &Vec<Vec<Seg>>)
    requires
        sound(old(buffer)),
        bounds.fits(),
        within(bounds, old(buffer).area),
    ensures
        sound(final(buffer)),
        final(buffer)@ == draw_rows(old(buffer)@, lines_view(lines@), 0, bounds, content),
{
    let ghost target = draw_rows(buffer@, lines_view(lines@), 0, bounds, content);
    let mut row: usize = 0;
    while row < lines.len()
        invariant
            row <= lines@.len(),
            sound(buffer),
            buffer.area == old(buffer).area,
            bounds.fits(),
            within(bounds, buffer.area),
            draw_rows(buffer@, lines_view(lines@), row as int, bounds, content) == target,
        decreases lines@.len() - row,
    {
        let y = content.y.saturating_add(#[verifier::truncate] (row as u16));
        if !(y >= content.bottom() || y < bounds.top() || y >= bounds.bottom()) {
            let end = if content.right() <= bounds.right() {
                content.right()
            } else {
                bounds.right()
            };
            let mut x = if content.x >= bounds.x {
                content.x
            } else {
                bounds.x
            };
            let line = &lines[row];
            let ghost segs = seg_views(line@);
            let mut s: usize = 0;
            proof {
                assert(segs.skip(0) =~= segs);
                assert(lines_view(lines@)[row as int] == segs);
            }
            while s < line.len()
                invariant
                    s <= line@.len(),
                    segs == seg_views(line@),
                    sound(buffer),
                    buffer.area == old(buffer).area,
                    within(bounds, buffer.area),
                    bounds.fits(),
                    bounds.y <= y < bounds.bottom_spec(),
                    bounds.x <= x,
                    end <= bounds.right_spec(),
                    draw_rows(
                        draw_segs(buffer@, x as int, y as int, segs.skip(s as int), end as int),
                        lines_view(lines@),
                        row as int + 1,
                        bounds,
                        content,
                    ) == target,
                ensures
                    sound(buffer),
                    buffer.area == old(buffer).area,
                    draw_rows(buffer@, lines_view(lines@), row as int + 1, bounds, content) == target,
                decreases line@.len() - s,
            {
                if x >= end {
                    break;
                }
                proof {
                    assert(segs.skip(s as int).drop_first() =~= segs.skip(s as int + 1));
                }
                let (text, style) = (&line[s].0, line[s].1);
                x = buffer.set_stringn(x, y, text.as_str(), (end - x) as usize, style);
                s = s + 1;
                proof {
                    if s == line.len() {
                        assert(segs.skip(s as int) =~= Seq::<(Seq<char>, Style)>::empty());
                    }
                }
            }
        }
        row = row + 1;
    }
}

/// The lines `spans` wrap into at `limit`, as plain values: the segments
/// of the normalized segmentation of each wrapped line, which is unique
/// ([`lemma_lines_match_unique`]).
pub open spec fn wrapped_lines(spans: Seq<Seg>, limit: Option<usize>) -> Seq<Seq<(Seq<char>, Style)>> {
    lines_view(choose|lines: Seq<Vec<Seg>>| lines_match(lines, wrap_spec(flatten(spans), limit)))
}

/// Lines that match the wrapped text are the wrapped lines.
proof fn lemma_wrapped_lines(lines: Seq<Vec<Seg>>, spans: Seq<Seg>, limit: Option<usize>)
    requires
        lines_match(lines, wrap_spec(flatten(spans), limit)),
    ensures
        lines_view(lines) == wrapped_lines(spans, limit),
{
    let chosen = choose|l: Seq<Vec<Seg>>| lines_match(l, wrap_spec(flatten(spans), limit));
    lemma_lines_match_unique(lines, chosen, wrap_spec(flatten(spans), limit));
}

/// Wraps a node's text to its content box and writes it within `bounds`:
/// the lines are those [`wrap_spans`] gives for the content width.
pub fn draw_text(buffer: &mut Buffer, bounds: Rect, text: &TextRun)
    requires
        sound(old(buffer)),
        bounds.fits(),
        within(bounds, old(buffer).area),
        flatten(text.spans@).len() * 3 < usize::MAX,
    ensures
        sound(final(buffer)),
        final(buffer)@ == draw_rows(
            old(buffer)@,
            wrapped_lines(text.spans@, Some(text.content.width as usize)),
            0,
            bounds,
            text.content,
        ),
{
    let lines = wrap_spans(text.spans.as_slice(), Some(text.content.width as usize));
    proof {
        lemma_wrapped_lines(lines@, text.spans@, Some(text.content.width as usize));
    }
    draw_lines(buffer, bounds, text.content, &lines);
}

/// The display width of a line of segments: the sum of its segments'
/// widths.
pub open spec fn segs_width(line: Seq<(Seq<char>, Style)>) -> int
    decreases line.len(),
{
    if line.len() == 0 {
        0
    } else {
        segs_width(line.drop_last()) + unicode_str_width(line.last().0) as int
    }
}

/// The widest of `lines`; zero without lines.
pub open spec fn widest_line(lines: Seq<Seq<(Seq<char>, Style)>>) -> int
    decreases lines.len(),
{
    if lines.len() == 0 {
        0
    } else {
        let rest = widest_line(lines.drop_last());
        let last = segs_width(lines.last());
        if last > rest {
            last
        } else {
            rest
        }
    }
}

/// The display width of one line, `None` when it does not fit a `usize`.
fn line_width(line: &Vec<Seg>) -> (w: Option<usize>)
    ensures
        w is Some <==> segs_width(seg_views(line@)) <= usize::MAX,
        w matches Some(v) ==> v == segs_width(seg_views(line@)),
{
    let ghost segs = seg_views(line@);
    let mut sum: usize = 0;
    let mut k: usize = 0;
    proof {
        assert(segs.take(0) =~= Seq::<(Seq<char>, Style)>::empty());
    }
    while k < line.len()
        invariant
            k <= line@.len(),
            segs == seg_views(line@),
            sum == segs_width(segs.take(k as int)),
            forall|j: int| 0 <= j <= k ==> segs_width(#[trigger] segs.take(j)) <= sum,
        decreases line@.len() - k,
    {
        proof {
            assert(segs.take(k as int + 1).drop_last() =~= segs.take(k as int));
            assert(segs.take(k as int + 1).last() == (line@[k as int].0@, line@[k as int].1));
        }
        let w = str_width(line[k].0.as_str());
        match sum.checked_add(w) {
            Some(next) => {
                sum = next;
            },
            None => {
                proof {
                    lemma_segs_width_grows(segs, k as int + 1);
                }
                return None;
            },
        }
        k = k + 1;
    }
    proof {
        assert(segs.take(k as int) =~= segs);
    }
    Some(sum)
}

/// A line is at least as wide as any of its beginnings.
proof fn lemma_segs_width_grows(segs: Seq<(Seq<char>, Style)>, j: int)
    requires
        0 <= j <= segs.len(),
    ensures
        segs_width(segs.take(j)) <= segs_width(segs),
    decreases segs.len() - j,
{
    if j < segs.len() {
        lemma_segs_width_grows(segs, j + 1);
        assert(segs.take(j + 1).drop_last() =~= segs.take(j));
    } else {
        assert(segs.take(j) =~= segs);
    }
}

/// What a node's text measures to at an optional width `limit`: the widest
/// of the lines it wraps into and their count, at least one. `None` when a
/// line is too wide for a `usize`.
pub fn measure_text(spans: &[Seg], limit: Option<usize>) -> (size: Option<(usize, usize)>)
    requires
        flatten(spans@).len() * 3 < usize::MAX,
    ensures
        size is Some <==> forall|k: int|
            0 <= k < wrapped_lines(spans@, limit).len() ==> segs_width(
                #[trigger] wrapped_lines(spans@, limit)[k],
            ) <= usize::MAX,
        size matches Some(s) ==> s.0 == widest_line(wrapped_lines(spans@, limit)) && s.1 == if wrapped_lines(
            spans@,
            limit,
        ).len() > 0 {
            wrapped_lines(spans@, limit).len() as int
        } else {
            1
        },
        size matches Some(s) ==> forall|k: int|
            0 <= k < wrapped_lines(spans@, limit).len() ==> segs_width(
                #[trigger] wrapped_lines(spans@, limit)[k],
            ) <= s.0,
        size matches Some(s) ==> wrapped_lines(spans@, limit).len() > 0 ==> exists|k: int|
            0 <= k < wrapped_lines(spans@, limit).len() && s.0 == segs_width(
                #[trigger] wrapped_lines(spans@, limit)[k],
            ),
{
    let lines = wrap_spans(spans, limit);
    let ghost all = lines_view(lines@);
    proof {
        lemma_widest_line_is_the_maximum(wrapped_lines(spans@, limit));
    }
    proof {
        lemma_wrapped_lines(lines@, spans@, limit);
    }
    let mut widest: usize = 0;
    let mut k: usize = 0;
    proof {
        assert(all.take(0) =~= Seq::<Seq<(Seq<char>, Style)>>::empty());
    }
    while k < lines.len()
        invariant
            k <= lines@.len(),
            all == lines_view(lines@),
            all == wrapped_lines(spans@, limit),
            widest == widest_line(all.take(k as int)),
            forall|j: int| 0 <= j < k ==> segs_width(#[trigger] all[j]) <= usize::MAX,
        decreases lines@.len() - k,
    {
        proof {
            assert(all.take(k as int + 1).drop_last() =~= all.take(k as int));
            assert(all.take(k as int + 1).last() == all[k as int]);
            assert(all[k as int] == seg_views(lines@[k as int]@));
        }
        match line_width(&lines[k]) {
            Some(w) => {
                if w > widest {
                    widest = w;
                }
            },
            None => {
                proof {
                    assert(wrapped_lines(spans@, limit)[k as int] == all[k as int]);
                }
                return None;
            },
        }
        proof {
            if k == 0 {
                assert(widest_line(all.take(0)) == 0);
            }
        }
        k = k + 1;
    }
    proof {
        assert(all.take(k as int) =~= all);
    }
    let height = if lines.len() > 0 {
        lines.len()
    } else {
        1
    };
    Some((widest, height))
}

/// A node's background and border painted within `bounds`: the solid
/// background, then the background gradient, then the border.
pub open spec fn base_spec(m: (Rect, Seq<CellView>), node: &BuiNode, bounds: Rect) -> (Rect, Seq<CellView>) {
    let m1 = match node.background {
        Some(color) => (m.0, region_map(m, bounds, bounds.width * bounds.height, filled(color))),
        None => m,
    };
    let m2 = match node.background_gradient {
        Some(g) => (m1.0, region_map(
            m1,
            bounds,
            bounds.width * bounds.height,
            gradient_filled(node.rect, g@),
        )),
        None => m1,
    };
    border_spec(
        m2,
        bounds,
        node.rect,
        match node.border_gradient {
            Some(g) => Some(g@),
            None => None,
        },
        node.corners,
        node.border,
    )
}

/// Paints a node: nothing when none of its cells are visible; otherwise
/// its background, background gradient and border within its visible
/// cells ([`base_spec`]), then its text wrapped to its content box.
pub fn paint(node: &BuiNode, buffer: &mut Buffer)
    requires
        sound(old(buffer)),
        node.background_gradient matches Some(g) ==> g@.len() == node.rect.width * node.rect.height,
        node.border_gradient matches Some(g) ==> g@.len() == node.rect.width * node.rect.height,
        node.text matches Some(t) ==> flatten(t.spans@).len() * 3 < usize::MAX,
    ensures
        sound(final(buffer)),
        ({
            let bounds = clipped_spec(node.rect, old(buffer).area, node.clip);
            let base = base_spec(old(buffer)@, node, bounds);
            &&& bounds.empty_spec() ==> final(buffer)@ == old(buffer)@
            &&& !bounds.empty_spec() ==> match node.text {
                None => final(buffer)@ == base,
                Some(t) => final(buffer)@ == draw_rows(
                    base,
                    wrapped_lines(t.spans@, Some(t.content.width as usize)),
                    0,
                    bounds,
                    t.content,
                ),
            }
        }),
{
    let area = buffer.area;
    let bounds = clipped(node.rect, area, node.clip);
    proof {
        let b0 = node.rect.intersection_spec(area);
        lemma_intersection_within(node.rect, area);
        crate::geometry::lemma_intersection_commutes(node.rect, area);
        lemma_intersection_fits(node.rect, area);
        match node.clip {
            Some(c) => {
                lemma_intersection_within(b0, c);
                lemma_intersection_fits(b0, c);
            },
            None => {},
        }
    }
    if bounds.is_empty() {
        return;
    }
    if let Some(color) = node.background {
        fill(buffer, bounds, color);
    }
    match &node.background_gradient {
        Some(g) => fill_gradient(buffer, bounds, node.rect, g.as_slice()),
        None => {},
    }
    let border_gradient = match &node.border_gradient {
        Some(g) => Some(g.as_slice()),
        None => None,
    };
    paint_border(buffer, bounds, node.rect, border_gradient, node.corners, node.border);
    if let Some(text) = &node.text {
        draw_text(buffer, bounds, text);
    }
}

/// A line's width is never negative.
proof fn lemma_segs_width_nonnegative(line: Seq<(Seq<char>, Style)>)
    ensures
        segs_width(line) >= 0,
    decreases line.len(),
{
    if line.len() > 0 {
        lemma_segs_width_nonnegative(line.drop_last());
    }
}

/// The widest line is as wide as every line and exactly as wide as one of
/// them; without lines it is zero.
pub proof fn lemma_widest_line_is_the_maximum(lines: Seq<Seq<(Seq<char>, Style)>>)
    ensures
        forall|k: int| 0 <= k < lines.len() ==> segs_width(#[trigger] lines[k]) <= widest_line(lines),
        lines.len() > 0 ==> exists|k: int|
            0 <= k < lines.len() && widest_line(lines) == segs_width(#[trigger] lines[k]),
        lines.len() == 0 ==> widest_line(lines) == 0,
    decreases lines.len(),
{
    if lines.len() > 0 {
        let rest = lines.drop_last();
        lemma_widest_line_is_the_maximum(rest);
        assert forall|k: int| 0 <= k < lines.len() implies segs_width(#[trigger] lines[k])
            <= widest_line(lines) by {
            if k < rest.len() {
                assert(lines[k] == rest[k]);
            }
        }
        if segs_width(lines.last()) > widest_line(rest) {
            assert(widest_line(lines) == segs_width(lines[lines.len() - 1]));
        } else if rest.len() > 0 {
            let k = choose|k: int| 0 <= k < rest.len() && widest_line(rest) == segs_width(
                #[trigger] rest[k],
            );
            assert(lines[k] == rest[k]);
        } else {
            lemma_segs_width_nonnegative(lines.last());
            assert(widest_line(lines) == segs_width(lines[0]));
        }
    }
}

/// A border's corners are the box-drawing corners of their own side,
/// rounded exactly where that corner is asked to be; every other border
/// cell is a horizontal line.
pub proof fn lemma_border_corners_face_their_sides(c: RoundedCorners, l: bool, r: bool, t: bool)
    ensures
        border_symbol(c, true, false, true) == if c.top_left {
            '╭'
        } else {
            '┌'
        },
        border_symbol(c, false, true, true) == if c.top_right {
            '╮'
        } else {
            '┐'
        },
        border_symbol(c, true, false, false) == if c.bottom_left {
            '╰'
        } else {
            '└'
        },
        border_symbol(c, false, true, false) == if c.bottom_right {
            '╯'
        } else {
            '┘'
        },
        l == r ==> border_symbol(c, l, r, t) == '─',
{
}

} // verus!
