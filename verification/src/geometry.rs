//! Cell-space geometry: rectangles and positions in terminal cells, with
//! the saturating coordinate arithmetic every bound is computed with.

use vstd::prelude::*;

verus! {

/// The largest `u16`, as an integer for specifications.
pub open spec fn u16_max() -> int {
    0xffff
}

/// `a + b` clamped to the `u16` range.
pub open spec fn sat_add(a: int, b: int) -> int {
    if a + b > u16_max() {
        u16_max()
    } else {
        a + b
    }
}

/// `a - b` clamped at zero.
pub open spec fn sat_sub(a: int, b: int) -> int {
    if a - b < 0 {
        0
    } else {
        a - b
    }
}

/// The smaller of two integers.
pub open spec fn min_int(a: int, b: int) -> int {
    if a <= b {
        a
    } else {
        b
    }
}

/// The larger of two integers.
pub open spec fn max_int(a: int, b: int) -> int {
    if a >= b {
        a
    } else {
        b
    }
}

/// A cell coordinate.
#[derive(Clone, Copy, Debug, PartialEq, Eq, Structural)]
pub struct Position {
    /// Column.
    pub x: u16,
    /// Row.
    pub y: u16,
}

impl Position {
    /// The position at column `x`, row `y`.
    pub fn new(x: u16, y: u16) -> (p: Position)
        ensures
            p.x == x,
            p.y == y,
    {
        Position { x, y }
    }
}

/// A rectangle of terminal cells: origin, width and height.
#[derive(Clone, Copy, Debug, PartialEq, Eq, Structural)]
pub struct Rect {
    /// Left column.
    pub x: u16,
    /// Top row.
    pub y: u16,
    /// Columns covered.
    pub width: u16,
    /// Rows covered.
    pub height: u16,
}

impl Rect {
    /// The first column right of the rect, clamped to `u16`.
    pub open spec fn right_spec(self) -> int {
        sat_add(self.x as int, self.width as int)
    }

    /// The first row below the rect, clamped to `u16`.
    pub open spec fn bottom_spec(self) -> int {
        sat_add(self.y as int, self.height as int)
    }

    /// Whether the rect covers no cell.
    pub open spec fn empty_spec(self) -> bool {
        self.width == 0 || self.height == 0
    }

    /// Whether the cell `(px, py)` lies inside the rect.
    pub open spec fn contains_spec(self, px: int, py: int) -> bool {
        &&& self.x <= px < self.right_spec()
        &&& self.y <= py < self.bottom_spec()
    }

    /// Whether the rect's far edges fit in `u16` without clamping.
    pub open spec fn fits(self) -> bool {
        &&& self.x + self.width <= u16_max()
        &&& self.y + self.height <= u16_max()
    }

    /// The overlap of two rects; zero-sized where they do not meet.
    pub open spec fn intersection_spec(self, other: Rect) -> Rect {
        let x1 = max_int(self.x as int, other.x as int);
        let y1 = max_int(self.y as int, other.y as int);
        let x2 = min_int(self.right_spec(), other.right_spec());
        let y2 = min_int(self.bottom_spec(), other.bottom_spec());
        Rect {
            x: x1 as u16,
            y: y1 as u16,
            width: sat_sub(x2, x1) as u16,
            height: sat_sub(y2, y1) as u16,
        }
    }

    /// The rect at the origin with no area.
    pub open spec fn zero_spec() -> Rect {
        Rect { x: 0, y: 0, width: 0, height: 0 }
    }

    /// The smallest rect covering both rects.
    pub open spec fn union_spec(self, other: Rect) -> Rect {
        let x1 = min_int(self.x as int, other.x as int);
        let y1 = min_int(self.y as int, other.y as int);
        let x2 = max_int(self.right_spec(), other.right_spec());
        let y2 = max_int(self.bottom_spec(), other.bottom_spec());
        Rect {
            x: x1 as u16,
            y: y1 as u16,
            width: sat_sub(x2, x1) as u16,
            height: sat_sub(y2, y1) as u16,
        }
    }

    /// The rect `new` builds: width and height cut back so the far edges
    /// stay within `u16`.
    pub open spec fn new_spec(x: u16, y: u16, width: u16, height: u16) -> Rect {
        Rect {
            x,
            y,
            width: (sat_add(x as int, width as int) - x) as u16,
            height: (sat_add(y as int, height as int) - y) as u16,
        }
    }

    /// A rect at `(x, y)`, its size clamped so that its right and bottom
    /// edges stay within `u16`.
    pub fn new(x: u16, y: u16, width: u16, height: u16) -> (r: Rect)
        ensures
            r == Rect::new_spec(x, y, width, height),
            r.fits(),
    {
        let width = x.saturating_add(width) - x;
        let height = y.saturating_add(height) - y;
        Rect { x, y, width, height }
    }

    /// The rect at the origin with no area.
    pub fn zero() -> (r: Rect)
        ensures
            r == (Rect { x: 0, y: 0, width: 0, height: 0 }),
    {
        Rect { x: 0, y: 0, width: 0, height: 0 }
    }

    /// Whether the rect has no area.
    pub fn is_empty(self) -> (b: bool)
        ensures
            b == self.empty_spec(),
    {
        self.width == 0 || self.height == 0
    }

    /// The cell count.
    pub fn area(self) -> (a: u32)
        ensures
            a == self.width * self.height,
    {
        assert(self.width * self.height <= 0xffff * 0xffff) by (nonlinear_arith)
            requires
                self.width <= 0xffff,
                self.height <= 0xffff,
        ;
        (self.width as u32) * (self.height as u32)
    }

    /// The left column.
    pub fn left(self) -> (l: u16)
        ensures
            l == self.x,
    {
        self.x
    }

    /// The top row.
    pub fn top(self) -> (t: u16)
        ensures
            t == self.y,
    {
        self.y
    }

    /// The first column right of the rect, clamped to `u16`.
    pub fn right(self) -> (r: u16)
        ensures
            r == self.right_spec(),
    {
        self.x.saturating_add(self.width)
    }

    /// The first row below the rect, clamped to `u16`.
    pub fn bottom(self) -> (b: u16)
        ensures
            b == self.bottom_spec(),
    {
        self.y.saturating_add(self.height)
    }

    /// Whether `position` lies inside the rect.
    pub fn contains(self, position: Position) -> (b: bool)
        ensures
            b == self.contains_spec(position.x as int, position.y as int),
    {
        position.x >= self.x && position.x < self.right() && position.y >= self.y && position.y
            < self.bottom()
    }

    /// The overlap of `self` and `other`; a rect with no area when they do
    /// not meet.
    pub fn intersection(self, other: Rect) -> (r: Rect)
        ensures
            r == self.intersection_spec(other),
    {
        let x1 = if self.x >= other.x {
            self.x
        } else {
            other.x
        };
        let y1 = if self.y >= other.y {
            self.y
        } else {
            other.y
        };
        let sr = self.right();
        let or = other.right();
        let sb = self.bottom();
        let ob = other.bottom();
        let x2 = if sr <= or {
            sr
        } else {
            or
        };
        let y2 = if sb <= ob {
            sb
        } else {
            ob
        };
        Rect { x: x1, y: y1, width: x2.saturating_sub(x1), height: y2.saturating_sub(y1) }
    }
}

impl Rect {
    /// The smallest rect covering both `self` and `other`.
    pub fn union(self, other: Rect) -> (r: Rect)
        ensures
            r == self.union_spec(other),
    {
        let x1 = if self.x <= other.x {
            self.x
        } else {
            other.x
        };
        let y1 = if self.y <= other.y {
            self.y
        } else {
            other.y
        };
        let sr = self.right();
        let or = other.right();
        let sb = self.bottom();
        let ob = other.bottom();
        let x2 = if sr >= or {
            sr
        } else {
            or
        };
        let y2 = if sb >= ob {
            sb
        } else {
            ob
        };
        Rect { x: x1, y: y1, width: x2.saturating_sub(x1), height: y2.saturating_sub(y1) }
    }
}

/// The union of two rects that fit covers both and fits too.
pub proof fn lemma_union_covers(a: Rect, b: Rect)
    requires
        a.fits(),
        b.fits(),
    ensures
        a.union_spec(b).fits(),
        a.union_spec(b).x <= a.x && a.x + a.width <= a.union_spec(b).x + a.union_spec(b).width,
        a.union_spec(b).y <= a.y && a.y + a.height <= a.union_spec(b).y + a.union_spec(b).height,
        a.union_spec(b).x <= b.x && b.x + b.width <= a.union_spec(b).x + a.union_spec(b).width,
        a.union_spec(b).y <= b.y && b.y + b.height <= a.union_spec(b).y + a.union_spec(b).height,
{
}

/// A cell lies in the overlap of two rects exactly when it lies in both.
pub proof fn lemma_intersection_contains(a: Rect, b: Rect, px: int, py: int)
    ensures
        a.intersection_spec(b).contains_spec(px, py) <==> (a.contains_spec(px, py)
            && b.contains_spec(px, py)),
{
}

/// The overlap of two rects always fits: its far edges are those of the
/// rects, clamped to `u16`.
pub proof fn lemma_intersection_fits(a: Rect, b: Rect)
    ensures
        a.intersection_spec(b).fits(),
{
}

/// Intersection does not depend on the order of its operands.
pub proof fn lemma_intersection_commutes(a: Rect, b: Rect)
    ensures
        a.intersection_spec(b) == b.intersection_spec(a),
{
}

/// The overlap of two rects never reaches outside either of them.
pub proof fn lemma_intersection_within(a: Rect, b: Rect)
    ensures
        a.intersection_spec(b).empty_spec() || (a.x <= a.intersection_spec(b).x
            && a.intersection_spec(b).right_spec() <= a.right_spec() && b.x
            <= a.intersection_spec(b).x && a.intersection_spec(b).right_spec() <= b.right_spec()
            && a.y <= a.intersection_spec(b).y && a.intersection_spec(b).bottom_spec()
            <= a.bottom_spec() && b.y <= a.intersection_spec(b).y
            && a.intersection_spec(b).bottom_spec() <= b.bottom_spec()),
{
}

} // verus!
