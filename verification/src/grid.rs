//! The halfblock grid: two independently colored points per terminal cell.
//!
//! Drawing `▀` with a foreground and a background color paints the top and
//! bottom of one cell separately, giving twice the vertical resolution
//! without giving up per-point color. Pipelines set points by subcell
//! coordinate and [`HalfblockGrid::resolve_into`] collapses the grid onto a
//! cell buffer. A cell with only one half set draws over whatever was there
//! already, so partial coverage composites instead of blanking the cell.

use vstd::prelude::*;

use crate::buffer::{
    col_of, index_in, lemma_area_fits, lemma_index_in_bounds, lemma_index_injective,
    lemma_index_position, row_of, same_cell, Buffer, Cell,
};
use crate::geometry::{Position, Rect};
use crate::style::Color;

verus! {

/// The upper half block, `▀`.
pub open spec fn upper_half_char() -> char {
    '\u{2580}'
}

/// The lower half block, `▄`.
pub open spec fn lower_half_char() -> char {
    '\u{2584}'
}

/// `after` is `before` with a halfblock pair drawn over it: both halves
/// draw `▀` upper-over-lower, one half draws its half block in the
/// foreground over the existing background, none leaves the cell alone.
pub open spec fn halves_drawn(
    before: Cell,
    upper: Option<Color>,
    lower: Option<Color>,
    after: Cell,
) -> bool {
    match (upper, lower) {
        (Some(up), Some(low)) => {
            &&& after.symbol@ == seq![upper_half_char()]
            &&& after.fg == up
            &&& after.bg == low
            &&& after.underline_color == before.underline_color
            &&& after.modifier == before.modifier
        },
        (Some(up), None) => {
            &&& after.symbol@ == seq![upper_half_char()]
            &&& after.fg == up
            &&& after.bg == before.bg
            &&& after.underline_color == before.underline_color
            &&& after.modifier == before.modifier
        },
        (None, Some(low)) => {
            &&& after.symbol@ == seq![lower_half_char()]
            &&& after.fg == low
            &&& after.bg == before.bg
            &&& after.underline_color == before.underline_color
            &&& after.modifier == before.modifier
        },
        (None, None) => same_cell(after, before),
    }
}

/// A color grid at double vertical resolution over a cell area, resolved
/// into half-block glyphs. Coordinates are screen cells (`x`) and
/// half-rows (`sub_y` = `cell_y * 2` for the upper half).
#[derive(Debug)]
pub struct HalfblockGrid {
    area: Rect,
    halves: Vec<Option<Color>>,
}

impl HalfblockGrid {
    /// The cell area the grid covers.
    pub closed spec fn cells(&self) -> Rect {
        self.area
    }

    /// One point per half row of every covered cell.
    pub closed spec fn wf(&self) -> bool {
        self.halves@.len() == self.area.width * self.area.height * 2
    }

    /// Whether `(x, sub_y)` is a point of the grid.
    pub open spec fn in_grid(&self, x: int, sub_y: int) -> bool {
        &&& self.cells().x <= x < self.cells().x + self.cells().width
        &&& 2 * self.cells().y <= sub_y < 2 * self.cells().y + 2 * self.cells().height
    }

    /// The color set at point `(x, sub_y)`; `None` where unset or outside.
    pub closed spec fn point(&self, x: int, sub_y: int) -> Option<Color> {
        if self.in_grid(x, sub_y) {
            self.halves@[(sub_y - 2 * self.area.y) * self.area.width + (x - self.area.x)]
        } else {
            None
        }
    }

    /// An empty grid covering `area` at twice its vertical resolution.
    pub fn new(area: Rect) -> (g: HalfblockGrid)
        requires
            area.width * area.height * 2 <= usize::MAX,
        ensures
            g.wf(),
            g.cells() == area,
            forall|x: int, sub_y: int| g.point(x, sub_y) is None,
    {
        let mut grid = HalfblockGrid { area: Rect::zero(), halves: Vec::new() };
        grid.reset(area);
        grid
    }

    /// Clears the grid and refits it to `area`.
    pub fn reset(&mut self, area: Rect)
        requires
            area.width * area.height * 2 <= usize::MAX,
        ensures
            final(self).wf(),
            final(self).cells() == area,
            forall|x: int, sub_y: int| final(self).point(x, sub_y) is None,
    {
        self.area = area;
        self.halves.clear();
        proof {
            lemma_area_fits(area);
        }
        let n: usize = area.width as usize * area.height as usize * 2;
        let mut i: usize = 0;
        while i < n
            invariant
                i <= n,
                n == area.width * area.height * 2,
                self.area == area,
                self.halves@.len() == i,
                forall|j: int| 0 <= j < i ==> (#[trigger] self.halves@[j]) is None,
            decreases n - i,
        {
            self.halves.push(None);
            i = i + 1;
        }
        assert forall|x: int, sub_y: int| self.in_grid(x, sub_y) implies (#[trigger] self.point(
            x,
            sub_y,
        )) is None by {
            lemma_point_index(area, x, sub_y);
        }
    }

    /// The grid's area in absolute subcell coordinates: cell columns,
    /// half-rows at twice the vertical resolution.
    pub fn subcell_area(&self) -> (r: Rect)
        requires
            self.cells().y * 2 <= 0xffff,
            self.cells().height * 2 <= 0xffff,
        ensures
            r == Rect::new_spec(
                self.cells().x,
                (self.cells().y * 2) as u16,
                self.cells().width,
                (self.cells().height * 2) as u16,
            ),
    {
        Rect::new(self.area.x, self.area.y * 2, self.area.width, self.area.height * 2)
    }

    /// The index of point `(x, sub_y)`; `None` out of area.
    fn index(&self, x: u16, sub_y: u16) -> (r: Option<usize>)
        requires
            self.wf(),
        ensures
            r is Some <==> self.in_grid(x as int, sub_y as int),
            r matches Some(i) ==> i == (sub_y - 2 * self.cells().y) * self.cells().width + (x
                - self.cells().x) && i < self.halves@.len(),
    {
        if x < self.area.x {
            return None;
        }
        let top2: usize = self.area.y as usize * 2;
        if (sub_y as usize) < top2 {
            return None;
        }
        let column = (x - self.area.x) as usize;
        let row = sub_y as usize - top2;
        let width = self.area.width as usize;
        let len = self.halves.len();
        if column < width && row < self.area.height as usize * 2 {
            proof {
                lemma_point_index(self.area, x as int, sub_y as int);
                assert(row * width <= row * width + column);
            }
            Some(row * width + column)
        } else {
            None
        }
    }

    /// Sets a subcell point; out-of-area coordinates are ignored.
    pub fn set(&mut self, x: u16, sub_y: u16, color: Color)
        requires
            old(self).wf(),
        ensures
            final(self).wf(),
            final(self).cells() == old(self).cells(),
            forall|px: int, py: int|
                #[trigger] final(self).point(px, py) == if px == x && py == sub_y
                    && old(self).in_grid(px, py) {
                    Some(color)
                } else {
                    old(self).point(px, py)
                },
    {
        if let Some(index) = self.index(x, sub_y) {
            self.halves.set(index, Some(color));
            assert forall|px: int, py: int| #[trigger]
                self.point(px, py) == if px == x && py == sub_y && old(self).in_grid(px, py) {
                    Some(color)
                } else {
                    old(self).point(px, py)
                } by {
                if self.in_grid(px, py) {
                    lemma_point_index(self.area, px, py);
                    lemma_point_index(self.area, x as int, sub_y as int);
                    if (py - 2 * self.area.y) * self.area.width + (px - self.area.x) == index {
                        lemma_point_injective(self.area, px, py, x as int, sub_y as int);
                    }
                }
            }
        }
    }

    /// Resolves into `buffer`: a cell with both halves set draws `▀` with
    /// the upper color as foreground and the lower as background; a single
    /// half draws its half block over the cell's existing background;
    /// cells outside the grid, or with neither half set, are untouched.
    pub fn resolve_into(&self, buffer: &mut Buffer)
        requires
            self.wf(),
            self.cells().fits(),
            old(buffer).wf(),
        ensures
            final(buffer).wf(),
            final(buffer).area == old(buffer).area,
            forall|i: int|
                0 <= i < final(buffer).content@.len() ==> {
                    let x = col_of(final(buffer).area, i);
                    let y = row_of(final(buffer).area, i);
                    if self.in_grid(x, 2 * y) {
                        halves_drawn(
                            old(buffer).content@[i],
                            self.point(x, 2 * y),
                            self.point(x, 2 * y + 1),
                            #[trigger] final(buffer).content@[i],
                        )
                    } else {
                        same_cell(final(buffer).content@[i], old(buffer).content@[i])
                    }
                },
    {
        let width = self.area.width as usize;
        let height = self.area.height as usize;
        let len = self.halves.len();
        proof {
            assert(width * height <= width * height * 2) by (nonlinear_arith)
                requires width * height >= 0;
        }
        let total: usize = width * height;
        let ghost barea = buffer.area;
        let ghost area = self.area;
        let mut k: usize = 0;
        while k < total
            invariant
                self.wf(),
                width == area.width,
                height == area.height,
                area == self.cells(),
                total == width * height,
                total * 2 <= usize::MAX,
                area.fits(),
                k <= total,
                buffer.wf(),
                buffer.area == barea,
                barea == old(buffer).area,
                buffer.content@.len() == old(buffer).content@.len(),
                forall|i: int|
                    0 <= i < buffer.content@.len() ==> {
                        let x = col_of(barea, i);
                        let y = row_of(barea, i);
                        if self.in_grid(x, 2 * y) && index_in(area, x, y) < k {
                            halves_drawn(
                                old(buffer).content@[i],
                                self.point(x, 2 * y),
                                self.point(x, 2 * y + 1),
                                #[trigger] buffer.content@[i],
                            )
                        } else {
                            same_cell(buffer.content@[i], old(buffer).content@[i])
                        }
                    },
            decreases total - k,
        {
            proof {
                lemma_cell_of_index(area, k as int);
            }
            let column = k % width;
            let row = k / width;
            let x: u16 = (self.area.x as usize + column) as u16;
            let y: u16 = (self.area.y as usize + row) as u16;
            proof {
                assert(row * 2 * width + width + column < width * height * 2) by (nonlinear_arith)
                    requires
                        row < height,
                        column < width,
                ;
            }
            let upper_index = row * 2 * width + column;
            let lower_index = row * 2 * width + width + column;
            proof {
                assert(self.in_grid(x as int, 2 * y));
                assert(self.in_grid(x as int, 2 * y + 1));
                assert(upper_index == (2 * y - 2 * area.y) * area.width + (x - area.x)) by (nonlinear_arith)
                    requires
                        upper_index == row * 2 * width + column,
                        y == area.y + row,
                        x == area.x + column,
                        width == area.width,
                ;
                assert(lower_index == (2 * y + 1 - 2 * area.y) * area.width + (x - area.x)) by (nonlinear_arith)
                    requires
                        lower_index == row * 2 * width + width + column,
                        y == area.y + row,
                        x == area.x + column,
                        width == area.width,
                ;
                lemma_point_index(area, x as int, 2 * y as int);
                lemma_point_index(area, x as int, 2 * y + 1);
            }
            let upper = self.halves[upper_index];
            let lower = self.halves[lower_index];
            let ghost before = buffer.content@;
            write_halves(buffer, x, y, upper, lower);
            proof {
                assert forall|i: int| 0 <= i < buffer.content@.len() implies {
                    let px = col_of(barea, i);
                    let py = row_of(barea, i);
                    if self.in_grid(px, 2 * py) && index_in(area, px, py) < k + 1 {
                        halves_drawn(
                            old(buffer).content@[i],
                            self.point(px, 2 * py),
                            self.point(px, 2 * py + 1),
                            #[trigger] buffer.content@[i],
                        )
                    } else {
                        same_cell(buffer.content@[i], old(buffer).content@[i])
                    }
                } by {
                    let px = col_of(barea, i);
                    let py = row_of(barea, i);
                    lemma_index_position(barea, i);
                    if px == x && py == y {
                        assert(index_in(area, px, py) == k);
                    } else {
                        if old(buffer).holds(x as int, y as int) && i == index_in(
                            barea,
                            x as int,
                            y as int,
                        ) {
                            lemma_index_injective(barea, px, py, x as int, y as int);
                        }
                        assert(buffer.content@[i] == before[i]);
                        if self.in_grid(px, 2 * py) {
                            if index_in(area, px, py) == k {
                                lemma_index_injective(area, px, py, x as int, y as int);
                            }
                        }
                    }
                }
            }
            k = k + 1;
        }
        assert forall|i: int| 0 <= i < buffer.content@.len() implies {
            let x = col_of(buffer.area, i);
            let y = row_of(buffer.area, i);
            if self.in_grid(x, 2 * y) {
                halves_drawn(
                    old(buffer).content@[i],
                    self.point(x, 2 * y),
                    self.point(x, 2 * y + 1),
                    #[trigger] buffer.content@[i],
                )
            } else {
                same_cell(buffer.content@[i], old(buffer).content@[i])
            }
        } by {
            let x = col_of(barea, i);
            let y = row_of(barea, i);
            if self.in_grid(x, 2 * y) {
                lemma_index_in_bounds(area, x, y);
            }
        }
    }
}

/// Point `(x, sub_y)` of a grid over `area` indexes into its halves.
proof fn lemma_point_index(area: Rect, x: int, sub_y: int)
    requires
        area.x <= x < area.x + area.width,
        2 * area.y <= sub_y < 2 * area.y + 2 * area.height,
    ensures
        0 <= (sub_y - 2 * area.y) * area.width + (x - area.x) < area.width * area.height * 2,
{
    let w = area.width as int;
    let h2 = 2 * area.height;
    let r = sub_y - 2 * area.y;
    let c = x - area.x;
    assert(0 <= r * w + c < w * h2) by (nonlinear_arith)
        requires
            0 <= c < w,
            0 <= r < h2,
    ;
    assert(w * h2 == area.width * area.height * 2) by (nonlinear_arith)
        requires
            h2 == 2 * area.height,
            w == area.width,
    ;
}

/// Distinct points of a grid have distinct indices.
proof fn lemma_point_injective(area: Rect, x1: int, s1: int, x2: int, s2: int)
    requires
        area.x <= x1 < area.x + area.width,
        2 * area.y <= s1 < 2 * area.y + 2 * area.height,
        area.x <= x2 < area.x + area.width,
        2 * area.y <= s2 < 2 * area.y + 2 * area.height,
        (s1 - 2 * area.y) * area.width + (x1 - area.x) == (s2 - 2 * area.y) * area.width + (x2
            - area.x),
    ensures
        x1 == x2,
        s1 == s2,
{
    let w = area.width as int;
    vstd::arithmetic::div_mod::lemma_fundamental_div_mod_converse(
        (s1 - 2 * area.y) * w + (x1 - area.x),
        w,
        s1 - 2 * area.y,
        x1 - area.x,
    );
    vstd::arithmetic::div_mod::lemma_fundamental_div_mod_converse(
        (s2 - 2 * area.y) * w + (x2 - area.x),
        w,
        s2 - 2 * area.y,
        x2 - area.x,
    );
}

/// Grid-local cell index `k` names the cell at column `k % width`, row
/// `k / width`, which lies inside the grid and fits in `u16`.
proof fn lemma_cell_of_index(area: Rect, k: int)
    requires
        0 <= k < area.width * area.height,
    ensures
        area.width > 0,
        index_in(area, area.x + k % (area.width as int), area.y + k / (area.width as int)) == k,
        0 <= k % (area.width as int) < area.width,
        0 <= k / (area.width as int) < area.height,
{
    lemma_index_position(area, k);
    crate::buffer::lemma_position_of_index(area, k);
}

/// Draws a halfblock pair at `(x, y)` of `buffer`; nothing happens
/// outside the buffer.
fn write_halves(
    buffer: &mut Buffer,
    x: u16,
    y: u16,
    upper: Option<Color>,
    lower: Option<Color>,
)
    requires
        old(buffer).wf(),
    ensures
        final(buffer).wf(),
        final(buffer).area == old(buffer).area,
        final(buffer).content@.len() == old(buffer).content@.len(),
        old(buffer).holds(x as int, y as int) ==> {
            let i = index_in(old(buffer).area, x as int, y as int);
            &&& halves_drawn(old(buffer).content@[i], upper, lower, final(buffer).content@[i])
            &&& forall|j: int|
                0 <= j < final(buffer).content@.len() && j != i ==> #[trigger] final(buffer).content@[j]
                    == old(buffer).content@[j]
        },
        !old(buffer).holds(x as int, y as int) ==> final(buffer).content@ == old(buffer).content@,
{
    let Some(i) = buffer.index_of_opt(Position::new(x, y)) else {
        return ;
    };
    match (upper, lower) {
        (Some(up), Some(low)) => {
            buffer.content[i].set_char('\u{2580}');
            buffer.content[i].fg = up;
            buffer.content[i].bg = low;
        },
        (Some(up), None) => {
            buffer.content[i].set_char('\u{2580}');
            buffer.content[i].fg = up;
        },
        (None, Some(low)) => {
            buffer.content[i].set_char('\u{2584}');
            buffer.content[i].fg = low;
        },
        (None, None) => {},
    }
}

/// A halfblock cell shows its upper subcell in the foreground of the upper
/// half block `▀` and its lower subcell in the background; a cell with
/// only a lower subcell shows it as the foreground of the lower half block
/// `▄`, and one with only an upper subcell keeps its background.
pub proof fn lemma_halves_show_top_over_bottom(before: Cell, after: Cell, up: Color, low: Color)
    ensures
        halves_drawn(before, Some(up), Some(low), after) ==> after.symbol@ == seq!['\u{2580}']
            && after.fg == up && after.bg == low,
        halves_drawn(before, Some(up), None, after) ==> after.symbol@ == seq!['\u{2580}']
            && after.fg == up && after.bg == before.bg,
        halves_drawn(before, None, Some(low), after) ==> after.symbol@ == seq!['\u{2584}']
            && after.fg == low && after.bg == before.bg,
{
}

} // verus!
