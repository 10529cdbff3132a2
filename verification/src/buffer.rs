//! Cells and cell buffers: what every pipeline draws into and the
//! compositor merges.
//!
//! A [`Buffer`] covers a [`Rect`] of the screen in absolute coordinates and
//! holds its cells row-major, so a cell at `(x, y)` lives at index
//! `(y - area.y) * width + (x - area.x)`.

use vstd::prelude::*;

use crate::geometry::{Position, Rect};
use crate::strings::{same_text, string_of_char};
use crate::style::{Color, Modifier, Style};

verus! {

/// One terminal cell: a symbol and how it is drawn.
#[derive(Debug)]
pub struct Cell {
    /// The grapheme shown; a blank cell shows a single space.
    pub symbol: String,
    /// Foreground color.
    pub fg: Color,
    /// Background color.
    pub bg: Color,
    /// Underline color.
    pub underline_color: Color,
    /// Text attributes.
    pub modifier: Modifier,
}

/// What a cell shows: its symbol, foreground, background and underline
/// colors, and modifiers.
pub type CellView = (Seq<char>, Color, Color, Color, Modifier);

impl View for Cell {
    type V = CellView;

    open spec fn view(&self) -> CellView {
        (self.symbol@, self.fg, self.bg, self.underline_color, self.modifier)
    }
}

/// What the blank cell shows.
pub open spec fn blank_view() -> CellView {
    (seq![' '], Color::Reset, Color::Reset, Color::Reset, Modifier { bits: 0 })
}

/// Whether `a` and `b` show the same thing: equal symbols, colors and
/// modifiers.
pub open spec fn same_cell(a: Cell, b: Cell) -> bool {
    &&& a.symbol@ == b.symbol@
    &&& a.fg == b.fg
    &&& a.bg == b.bg
    &&& a.underline_color == b.underline_color
    &&& a.modifier == b.modifier
}

/// Whether `c` is the blank cell: a space in default colors with no
/// modifier.
pub open spec fn is_blank(c: Cell) -> bool {
    &&& c.symbol@ == seq![' ']
    &&& c.fg == Color::Reset
    &&& c.bg == Color::Reset
    &&& c.underline_color == Color::Reset
    &&& c.modifier.bits == 0
}

/// `c` with `style` applied: set colors replace, modifiers are added and
/// removed.
pub open spec fn styled_cell_matches(before: Cell, style: Style, after: Cell) -> bool {
    &&& after.symbol@ == before.symbol@
    &&& after.fg == (match style.fg {
        Some(c) => c,
        None => before.fg,
    })
    &&& after.bg == (match style.bg {
        Some(c) => c,
        None => before.bg,
    })
    &&& after.underline_color == (match style.underline_color {
        Some(c) => c,
        None => before.underline_color,
    })
    &&& after.modifier.bits == (before.modifier.bits | style.add_modifier.bits)
        & !style.sub_modifier.bits
}

impl Cell {
    /// The blank cell.
    pub fn empty() -> (c: Cell)
        ensures
            is_blank(c),
    {
        Cell {
            symbol: string_of_char(' '),
            fg: Color::Reset,
            bg: Color::Reset,
            underline_color: Color::Reset,
            modifier: Modifier::empty(),
        }
    }

    /// A copy of this cell.
    pub fn duplicate(&self) -> (c: Cell)
        ensures
            same_cell(c, *self),
    {
        Cell {
            symbol: self.symbol.clone(),
            fg: self.fg,
            bg: self.bg,
            underline_color: self.underline_color,
            modifier: self.modifier,
        }
    }

    /// Whether this is the blank cell.
    pub fn is_blank(&self) -> (b: bool)
        ensures
            b == is_blank(*self),
    {
        let space = string_of_char(' ');
        same_text(&self.symbol, &space) && self.fg == Color::Reset && self.bg == Color::Reset
            && self.underline_color == Color::Reset && self.modifier.bits == 0
    }

    /// Whether this cell shows the same thing as `other`.
    pub fn same_as(&self, other: &Cell) -> (b: bool)
        ensures
            b == same_cell(*self, *other),
    {
        same_text(&self.symbol, &other.symbol) && self.fg == other.fg && self.bg == other.bg
            && self.underline_color == other.underline_color && self.modifier == other.modifier
    }

    /// Shows `c` in this cell.
    pub fn set_char(&mut self, c: char)
        ensures
            final(self).symbol@ == seq![c],
            final(self).fg == old(self).fg,
            final(self).bg == old(self).bg,
            final(self).underline_color == old(self).underline_color,
            final(self).modifier == old(self).modifier,
    {
        self.symbol = string_of_char(c);
    }

    /// Shows `symbol` in this cell.
    pub fn set_symbol(&mut self, symbol: &String)
        ensures
            final(self).symbol@ == symbol@,
            final(self).fg == old(self).fg,
            final(self).bg == old(self).bg,
            final(self).underline_color == old(self).underline_color,
            final(self).modifier == old(self).modifier,
    {
        self.symbol = symbol.clone();
    }

    /// Applies `style`: its set colors replace this cell's, its modifiers
    /// are added and removed.
    pub fn set_style(&mut self, style: Style)
        ensures
            styled_cell_matches(*old(self), style, *final(self)),
    {
        if let Some(c) = style.fg {
            self.fg = c;
        }
        if let Some(c) = style.bg {
            self.bg = c;
        }
        if let Some(c) = style.underline_color {
            self.underline_color = c;
        }
        self.modifier = self.modifier.union(style.add_modifier).difference(style.sub_modifier);
    }

    /// Turns this cell back into the blank cell.
    pub fn reset(&mut self)
        ensures
            is_blank(*final(self)),
    {
        *self = Cell::empty();
    }
}

/// A rectangle of cells in absolute screen coordinates.
#[derive(Debug)]
pub struct Buffer {
    /// The screen region covered.
    pub area: Rect,
    /// The cells, row-major.
    pub content: Vec<Cell>,
}

/// The row-major index of `(x, y)` in a buffer over `area`.
pub open spec fn index_in(area: Rect, x: int, y: int) -> int {
    (y - area.y) * area.width + (x - area.x)
}

/// Index arithmetic of a rect's cells: inside positions map into
/// `0..width*height`, injectively.
pub proof fn lemma_index_in_bounds(area: Rect, x: int, y: int)
    requires
        area.x <= x < area.x + area.width,
        area.y <= y < area.y + area.height,
    ensures
        0 <= index_in(area, x, y) < area.width * area.height,
        index_in(area, x, y) % (area.width as int) == x - area.x,
        index_in(area, x, y) / (area.width as int) == y - area.y,
{
    let w = area.width as int;
    let h = area.height as int;
    let dx = x - area.x;
    let dy = y - area.y;
    assert(0 <= dy * w + dx < w * h) by (nonlinear_arith)
        requires
            0 <= dx < w,
            0 <= dy < h,
    ;
    vstd::arithmetic::div_mod::lemma_fundamental_div_mod_converse(dy * w + dx, w, dy, dx);
}

/// The position of index `i` in a buffer over `area`.
pub proof fn lemma_position_of_index(area: Rect, i: int)
    requires
        0 <= i < area.width * area.height,
    ensures
        area.width > 0,
        0 <= i % (area.width as int) < area.width,
        0 <= i / (area.width as int) < area.height,
        index_in(area, area.x + i % (area.width as int), area.y + i / (area.width as int)) == i,
{
    let w = area.width as int;
    let h = area.height as int;
    assert(w > 0) by (nonlinear_arith)
        requires
            0 <= i < w * h,
            h >= 0,
            w >= 0,
    ;
    vstd::arithmetic::div_mod::lemma_fundamental_div_mod(i, w);
    assert(i / w < h) by (nonlinear_arith)
        requires
            0 <= i < w * h,
            w > 0,
            i == w * (i / w) + i % w,
            0 <= i % w < w,
    ;
    assert(i / w >= 0) by (nonlinear_arith)
        requires
            0 <= i,
            w > 0,
    ;
    assert((i / w) * w == w * (i / w)) by (nonlinear_arith);
}

/// A rect's cell count fits in 32 bits.
pub proof fn lemma_area_fits(area: Rect)
    ensures
        0 <= area.width * area.height <= 0xffff * 0xffff,
        area.width * area.height < usize::MAX,
{
    assert(0 <= area.width * area.height <= 0xffff * 0xffff) by (nonlinear_arith)
        requires
            area.width <= 0xffff,
            area.height <= 0xffff,
    ;
}

/// The column of content index `i` in a buffer over `area`.
pub open spec fn col_of(area: Rect, i: int) -> int {
    area.x + i % (area.width as int)
}

/// The row of content index `i` in a buffer over `area`.
pub open spec fn row_of(area: Rect, i: int) -> int {
    area.y + i / (area.width as int)
}

/// Content index `i` sits at a cell of the area, and that cell indexes
/// back to `i`.
pub proof fn lemma_index_position(area: Rect, i: int)
    requires
        0 <= i < area.width * area.height,
    ensures
        area.x <= col_of(area, i) < area.x + area.width,
        area.y <= row_of(area, i) < area.y + area.height,
        index_in(area, col_of(area, i), row_of(area, i)) == i,
{
    lemma_position_of_index(area, i);
}

/// Two cells of an area with the same index are the same cell.
pub proof fn lemma_index_injective(area: Rect, x1: int, y1: int, x2: int, y2: int)
    requires
        area.x <= x1 < area.x + area.width,
        area.y <= y1 < area.y + area.height,
        area.x <= x2 < area.x + area.width,
        area.y <= y2 < area.y + area.height,
        index_in(area, x1, y1) == index_in(area, x2, y2),
    ensures
        x1 == x2,
        y1 == y2,
{
    lemma_index_in_bounds(area, x1, y1);
    lemma_index_in_bounds(area, x2, y2);
}

/// Whether `(x, y)` is a cell of `area`.
pub open spec fn in_area(area: Rect, x: int, y: int) -> bool {
    &&& area.x <= x < area.x + area.width
    &&& area.y <= y < area.y + area.height
}

impl View for Buffer {
    type V = (Rect, Seq<CellView>);

    open spec fn view(&self) -> (Rect, Seq<CellView>) {
        (self.area, self.content@.map_values(|c: Cell| c@))
    }
}

impl Buffer {
    /// The content length matches the area.
    pub open spec fn wf(&self) -> bool {
        self.content@.len() == self.area.width * self.area.height
    }

    /// Whether `(x, y)` is a cell of the buffer.
    pub open spec fn holds(&self, x: int, y: int) -> bool {
        &&& self.area.x <= x < self.area.x + self.area.width
        &&& self.area.y <= y < self.area.y + self.area.height
    }

    /// The cell at `(x, y)`.
    pub open spec fn at(&self, x: int, y: int) -> Cell {
        self.content@[index_in(self.area, x, y)]
    }

    /// A buffer over `area` holding `cell` everywhere.
    pub fn filled(area: Rect, cell: &Cell) -> (b: Buffer)
        requires
            area.fits(),
        ensures
            b.wf(),
            b.area == area,
            forall|i: int| 0 <= i < b.content@.len() ==> same_cell(#[trigger] b.content@[i], *cell),
    {
        let size = area.area() as usize;
        let mut content: Vec<Cell> = Vec::new();
        let mut i: usize = 0;
        while i < size
            invariant
                i <= size,
                size == area.width * area.height,
                content@.len() == i,
                forall|j: int| 0 <= j < i ==> same_cell(#[trigger] content@[j], *cell),
            decreases size - i,
        {
            content.push(cell.duplicate());
            i = i + 1;
        }
        Buffer { area, content }
    }

    /// A buffer over `area` of blank cells.
    pub fn empty(area: Rect) -> (b: Buffer)
        requires
            area.fits(),
        ensures
            b.wf(),
            b.area == area,
            forall|i: int| 0 <= i < b.content@.len() ==> is_blank(#[trigger] b.content@[i]),
    {
        let blank = Cell::empty();
        Buffer::filled(area, &blank)
    }

    /// The content index of `position`, or `None` outside the area.
    pub fn index_of_opt(&self, position: Position) -> (r: Option<usize>)
        requires
            self.wf(),
        ensures
            r is Some <==> self.holds(position.x as int, position.y as int),
            r matches Some(i) ==> i == index_in(self.area, position.x as int, position.y as int)
                && i < self.content@.len(),
    {
        let area = self.area;
        if position.x < area.x || position.y < area.y {
            return None;
        }
        let dx = (position.x - area.x) as usize;
        let dy = (position.y - area.y) as usize;
        if dx >= area.width as usize || dy >= area.height as usize {
            return None;
        }
        proof {
            lemma_index_in_bounds(area, position.x as int, position.y as int);
            lemma_area_fits(area);
            assert(dy * area.width <= dy * area.width + dx);
        }
        Some(dy * (area.width as usize) + dx)
    }

    /// The cell at `position`, or `None` outside the area.
    pub fn cell(&self, position: Position) -> (r: Option<&Cell>)
        requires
            self.wf(),
        ensures
            r is Some <==> self.holds(position.x as int, position.y as int),
            r matches Some(c) ==> *c == self.at(position.x as int, position.y as int),
    {
        match self.index_of_opt(position) {
            Some(i) => Some(&self.content[i]),
            None => None,
        }
    }

    /// Blanks every cell.
    pub fn reset(&mut self)
        requires
            old(self).wf(),
        ensures
            final(self).wf(),
            final(self).area == old(self).area,
            forall|i: int|
                0 <= i < final(self).content@.len() ==> is_blank(#[trigger] final(self).content@[i]),
    {
        let n = self.content.len();
        let mut i: usize = 0;
        while i < n
            invariant
                i <= n,
                n == self.content@.len(),
                self.wf(),
                self.area == old(self).area,
                forall|j: int| 0 <= j < i ==> is_blank(#[trigger] self.content@[j]),
            decreases n - i,
        {
            self.content[i].reset();
            i = i + 1;
        }
    }
}

} // verus!
