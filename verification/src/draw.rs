//! Drawing into a buffer: single cells by position, and strings laid out
//! grapheme by grapheme, a wide grapheme covering the cells after it.
//!
//! Buffers are described by their model - area and the view of each cell -
//! so a drawing operation is stated as the model it produces.

use vstd::prelude::*;

use crate::buffer::{
    blank_view, col_of, in_area, index_in, lemma_index_in_bounds, lemma_index_injective,
    lemma_index_position, row_of, Buffer, CellView,
};
use crate::compositor::{cell_at, sound};
use crate::geometry::{Position, Rect};
use crate::strings::chars_of;
use crate::style::{Color, Modifier, Style};
use crate::unicode::{control_char, graphemes, is_control, unicode_graphemes};

use ratatui_core::buffer::CellWidth;

verus! {

/// `v` showing `symbol` instead.
pub open spec fn with_symbol(v: CellView, symbol: Seq<char>) -> CellView {
    (symbol, v.1, v.2, v.3, v.4)
}

/// `v` with `style` applied: set colors replace, modifiers are added and
/// removed.
pub open spec fn with_style(v: CellView, style: Style) -> CellView {
    (
        v.0,
        match style.fg {
            Some(c) => c,
            None => v.1,
        },
        match style.bg {
            Some(c) => c,
            None => v.2,
        },
        match style.underline_color {
            Some(c) => c,
            None => v.3,
        },
        Modifier { bits: (v.4.bits | style.add_modifier.bits) & !style.sub_modifier.bits },
    )
}

/// `v` with foreground `color`.
pub open spec fn with_fg(v: CellView, color: Color) -> CellView {
    (v.0, color, v.2, v.3, v.4)
}

/// `v` with background `color`.
pub open spec fn with_bg(v: CellView, color: Color) -> CellView {
    (v.0, v.1, color, v.3, v.4)
}

/// The model with the cell at `(x, y)` replaced by `v`; unchanged when the
/// area does not hold `(x, y)`.
pub open spec fn put(m: (Rect, Seq<CellView>), x: int, y: int, v: CellView) -> (Rect, Seq<CellView>) {
    if in_area(m.0, x, y) {
        (m.0, m.1.update(index_in(m.0, x, y), v))
    } else {
        m
    }
}

/// The model with the cells `from..to` of row `y` blanked, where the area
/// holds them.
pub open spec fn blank_run(m: (Rect, Seq<CellView>), from: int, to: int, y: int) -> (
    Rect,
    Seq<CellView>,
)
    decreases to - from,
{
    if from >= to {
        m
    } else {
        blank_run(put(m, from, y, blank_view()), from + 1, to, y)
    }
}

impl Buffer {
    /// Shows `symbol` with `style` applied at `(x, y)`; nothing outside the
    /// area.
    pub fn put_symbol(&mut self, x: u16, y: u16, symbol: &String, style: Style)
        requires
            sound(old(self)),
        ensures
            sound(final(self)),
            final(self).area == old(self).area,
            final(self)@ == put(
                old(self)@,
                x as int,
                y as int,
                with_style(with_symbol(cell_at(old(self)@, x as int, y as int), symbol@), style),
            ),
    {
        if let Some(i) = self.index_of_opt(Position::new(x, y)) {
            let ghost before = self.content@;
            self.content[i].set_symbol(symbol);
            self.content[i].set_style(style);
            proof {
                assert(self@.1 =~= old(self)@.1.update(
                    i as int,
                    with_style(with_symbol(old(self)@.1[i as int], symbol@), style),
                ));
            }
        }
    }

    /// Blanks the cell at `(x, y)`; nothing outside the area.
    pub fn reset_at(&mut self, x: u16, y: u16)
        requires
            sound(old(self)),
        ensures
            sound(final(self)),
            final(self).area == old(self).area,
            final(self)@ == put(old(self)@, x as int, y as int, blank_view()),
    {
        if let Some(i) = self.index_of_opt(Position::new(x, y)) {
            self.content[i].reset();
            proof {
                assert(self@.1 =~= old(self)@.1.update(i as int, blank_view()));
            }
        }
    }

    /// Shows a space on `color` at `(x, y)`; nothing outside the area.
    pub fn fill_at(&mut self, x: u16, y: u16, color: Color)
        requires
            sound(old(self)),
        ensures
            sound(final(self)),
            final(self).area == old(self).area,
            final(self)@ == put(
                old(self)@,
                x as int,
                y as int,
                with_bg(with_symbol(cell_at(old(self)@, x as int, y as int), seq![' ']), color),
            ),
    {
        if let Some(i) = self.index_of_opt(Position::new(x, y)) {
            self.content[i].set_char(' ');
            self.content[i].bg = color;
            proof {
                assert(self@.1 =~= old(self)@.1.update(
                    i as int,
                    with_bg(with_symbol(old(self)@.1[i as int], seq![' ']), color),
                ));
            }
        }
    }

    /// Shows `symbol` in foreground `color` at `(x, y)`; nothing outside
    /// the area.
    pub fn put_fg_symbol(&mut self, x: u16, y: u16, symbol: &String, color: Color)
        requires
            sound(old(self)),
        ensures
            sound(final(self)),
            final(self).area == old(self).area,
            final(self)@ == put(
                old(self)@,
                x as int,
                y as int,
                with_fg(with_symbol(cell_at(old(self)@, x as int, y as int), symbol@), color),
            ),
    {
        if let Some(i) = self.index_of_opt(Position::new(x, y)) {
            self.content[i].set_symbol(symbol);
            self.content[i].fg = color;
            proof {
                assert(self@.1 =~= old(self)@.1.update(
                    i as int,
                    with_fg(with_symbol(old(self)@.1[i as int], symbol@), color),
                ));
            }
        }
    }
}

/// The cell width `ratatui-core` assigns a symbol.
pub uninterp spec fn ratatui_cell_width(s: Seq<char>) -> u16;

/// The cell width of a grapheme as a buffer lays it out.
///
/// Trusted: calls `ratatui_core::buffer::CellWidth::cell_width` for `str`.
/// The contract names the result, which depends on `s` alone, and states
/// what the source shows: a one-byte symbol is one cell wide. The source
/// debug-asserts against a lone ASCII control byte, which `requires`
/// leaves out.
#[verifier::external_body]
fn symbol_width(s: &str) -> (w: u16)
    requires
        !(s@.len() == 1 && s@[0] <= '\u{7f}' && control_char(s@[0])),
    ensures
        w == ratatui_cell_width(s@),
        s@.len() == 1 && s@[0] <= '\u{7f}' ==> w == 1,
{
    s.cell_width()
}

/// Whether a symbol holds a control character.
pub open spec fn has_control(s: Seq<char>) -> bool {
    exists|i: int| 0 <= i < s.len() && control_char(#[trigger] s[i])
}

fn contains_control(s: &String) -> (b: bool)
    ensures
        b == has_control(s@),
{
    let chars = chars_of(s.as_str());
    let mut i: usize = 0;
    while i < chars.len()
        invariant
            i <= chars@.len(),
            chars@ == s@,
            forall|j: int| 0 <= j < i ==> !control_char(#[trigger] chars@[j]),
        decreases chars@.len() - i,
    {
        if is_control(chars[i]) {
            return true;
        }
        i = i + 1;
    }
    false
}

/// The graphemes a string lays out as, each with its cell width: those
/// without control characters and of nonzero width, in order.
pub open spec fn laid_out(gs: Seq<Seq<char>>) -> Seq<(Seq<char>, int)>
    decreases gs.len(),
{
    if gs.len() == 0 {
        Seq::empty()
    } else {
        let g = gs[0];
        let rest = laid_out(gs.drop_first());
        if !has_control(g) && ratatui_cell_width(g) > 0 {
            seq![(g, ratatui_cell_width(g) as int)] + rest
        } else {
            rest
        }
    }
}

/// The model after `items` are written into row `y` from column `x`, each
/// covering the cells of its width (the first shows it, the others are
/// blanked), while they fit in `budget` columns; and the column after the
/// last one written.
pub open spec fn write_items(
    m: (Rect, Seq<CellView>),
    x: int,
    y: int,
    items: Seq<(Seq<char>, int)>,
    budget: int,
    style: Style,
) -> ((Rect, Seq<CellView>), int)
    decreases items.len(),
{
    if items.len() == 0 || items[0].1 > budget {
        (m, x)
    } else {
        let (g, w) = items[0];
        let shown = put(m, x, y, with_style(with_symbol(cell_at(m, x, y), g), style));
        write_items(
            blank_run(shown, x + 1, x + w, y),
            x + w,
            y,
            items.drop_first(),
            budget - w,
            style,
        )
    }
}

/// What writing `string` at `(x, y)` within `max_width` columns produces:
/// its graphemes without control characters and of nonzero width, written
/// left to right while they fit both `max_width` and the area's right edge;
/// and the column after the last one written.
pub open spec fn set_stringn_spec(
    m: (Rect, Seq<CellView>),
    x: int,
    y: int,
    string: Seq<char>,
    max_width: int,
    style: Style,
) -> ((Rect, Seq<CellView>), int) {
    let room = if m.0.right_spec() - x > 0 {
        m.0.right_spec() - x
    } else {
        0
    };
    let cap = if max_width > 0xffff {
        0xffff
    } else {
        max_width
    };
    let budget = if room < cap {
        room
    } else {
        cap
    };
    write_items(m, x, y, laid_out(unicode_graphemes(string)), budget, style)
}

proof fn lemma_blank_run_keeps(m: (Rect, Seq<CellView>), from: int, to: int, y: int)
    requires
        m.1.len() == m.0.width * m.0.height,
    ensures
        blank_run(m, from, to, y).0 == m.0,
        blank_run(m, from, to, y).1.len() == m.1.len(),
    decreases to - from,
{
    if from < to {
        if in_area(m.0, from, y) {
            lemma_index_in_bounds(m.0, from, y);
        }
        lemma_blank_run_keeps(put(m, from, y, blank_view()), from + 1, to, y);
    }
}

/// The model `m0` with `f` applied to the cells of `area` whose index in
/// `area` is below `upto`.
pub open spec fn region_map(
    m0: (Rect, Seq<CellView>),
    area: Rect,
    upto: int,
    f: spec_fn(CellView, int, int) -> CellView,
) -> Seq<CellView> {
    Seq::new(
        m0.1.len(),
        |j: int|
            {
                let x = col_of(m0.0, j);
                let y = row_of(m0.0, j);
                if in_area(area, x, y) && index_in(area, x, y) < upto {
                    f(m0.1[j], x, y)
                } else {
                    m0.1[j]
                }
            },
    )
}

/// Applying `f` to the next cell of `area`, in row-major order, extends
/// the mapped region by that cell.
pub proof fn lemma_region_step(
    m0: (Rect, Seq<CellView>),
    area: Rect,
    i: int,
    f: spec_fn(CellView, int, int) -> CellView,
)
    requires
        m0.1.len() == m0.0.width * m0.0.height,
        0 <= i < area.width * area.height,
    ensures
        ({
            let x = area.x + i % (area.width as int);
            let y = area.y + i / (area.width as int);
            let cur = (m0.0, region_map(m0, area, i, f));
            &&& in_area(area, x, y)
            &&& index_in(area, x, y) == i
            &&& put(cur, x, y, f(cell_at(cur, x, y), x, y)) == (m0.0, region_map(m0, area, i + 1, f))
        }),
{
    lemma_index_position(area, i);
    let x = area.x + i % (area.width as int);
    let y = area.y + i / (area.width as int);
    let cur = (m0.0, region_map(m0, area, i, f));
    let next = region_map(m0, area, i + 1, f);
    if in_area(m0.0, x, y) {
        lemma_index_in_bounds(m0.0, x, y);
        let k = index_in(m0.0, x, y);
        lemma_index_position(m0.0, k);
        lemma_index_injective(m0.0, col_of(m0.0, k), row_of(m0.0, k), x, y);
        assert forall|j: int| 0 <= j < m0.1.len() implies #[trigger] cur.1.update(k, f(cur.1[k], x, y))[j]
            == next[j] by {
            lemma_index_position(m0.0, j);
            let xj = col_of(m0.0, j);
            let yj = row_of(m0.0, j);
            if in_area(area, xj, yj) {
                lemma_index_in_bounds(area, xj, yj);
                if index_in(area, xj, yj) == i {
                    lemma_index_injective(area, xj, yj, x, y);
                }
            }
            if j == k {
            }
        }
        assert(cur.1.update(k, f(cur.1[k], x, y)) =~= next);
    } else {
        assert forall|j: int| 0 <= j < m0.1.len() implies #[trigger] cur.1[j] == next[j] by {
            lemma_index_position(m0.0, j);
            let xj = col_of(m0.0, j);
            let yj = row_of(m0.0, j);
            if in_area(area, xj, yj) {
                lemma_index_in_bounds(area, xj, yj);
                if index_in(area, xj, yj) == i {
                    lemma_index_injective(area, xj, yj, x, y);
                }
            }
        }
        assert(cur.1 =~= next);
    }
}

/// Putting a cell's own view back changes nothing.
pub proof fn lemma_put_same(m: (Rect, Seq<CellView>), x: int, y: int)
    requires
        m.1.len() == m.0.width * m.0.height,
    ensures
        put(m, x, y, cell_at(m, x, y)) == m,
{
    if in_area(m.0, x, y) {
        lemma_index_in_bounds(m.0, x, y);
        assert(m.1.update(index_in(m.0, x, y), m.1[index_in(m.0, x, y)]) =~= m.1);
    }
}

/// Mapping every cell of `area` and mapping none agree with the plain
/// definition at the two ends.
pub proof fn lemma_region_ends(m0: (Rect, Seq<CellView>), area: Rect, f: spec_fn(CellView, int, int) -> CellView)
    requires
        m0.1.len() == m0.0.width * m0.0.height,
    ensures
        region_map(m0, area, 0, f) == m0.1,
        region_map(m0, area, area.width * area.height, f) == Seq::new(
            m0.1.len(),
            |j: int|
                if in_area(area, col_of(m0.0, j), row_of(m0.0, j)) {
                    f(m0.1[j], col_of(m0.0, j), row_of(m0.0, j))
                } else {
                    m0.1[j]
                },
        ),
{
    assert forall|j: int| 0 <= j < m0.1.len() implies #[trigger] region_map(m0, area, 0, f)[j] == m0.1[j] by {
        if in_area(area, col_of(m0.0, j), row_of(m0.0, j)) {
            lemma_index_in_bounds(area, col_of(m0.0, j), row_of(m0.0, j));
        }
    }
    assert(region_map(m0, area, 0, f) =~= m0.1);
    assert forall|j: int| 0 <= j < m0.1.len() implies #[trigger] region_map(
        m0,
        area,
        area.width * area.height,
        f,
    )[j] == (if in_area(area, col_of(m0.0, j), row_of(m0.0, j)) {
        f(m0.1[j], col_of(m0.0, j), row_of(m0.0, j))
    } else {
        m0.1[j]
    }) by {
        if in_area(area, col_of(m0.0, j), row_of(m0.0, j)) {
            lemma_index_in_bounds(area, col_of(m0.0, j), row_of(m0.0, j));
        }
    }
    assert(region_map(m0, area, area.width * area.height, f) =~= Seq::new(
        m0.1.len(),
        |j: int|
            if in_area(area, col_of(m0.0, j), row_of(m0.0, j)) {
                f(m0.1[j], col_of(m0.0, j), row_of(m0.0, j))
            } else {
                m0.1[j]
            },
    ));
}

impl Buffer {
    /// Writes `string` from `(x, y)` within `max_width` columns; returns the
    /// column after the last grapheme written. See [`set_stringn_spec`].
    pub fn set_stringn(&mut self, x: u16, y: u16, string: &str, max_width: usize, style: Style) -> (end: u16)
        requires
            sound(old(self)),
            old(self).area.x <= x,
            old(self).area.y <= y < old(self).area.y + old(self).area.height,
        ensures
            sound(final(self)),
            final(self).area == old(self).area,
            end >= x,
            (final(self)@, end as int) == set_stringn_spec(
                old(self)@,
                x as int,
                y as int,
                string@,
                max_width as int,
                style,
            ),
    {
        let cap: u16 = if max_width > 0xffff {
            0xffff
        } else {
            max_width as u16
        };
        let right = self.area.right();
        let room: u16 = if right > x {
            right - x
        } else {
            0
        };
        let mut remaining: u16 = if room < cap {
            room
        } else {
            cap
        };
        let gs = graphemes(string);
        let ghost all = unicode_graphemes(string@);
        let ghost target = set_stringn_spec(
            old(self)@,
            x as int,
            y as int,
            string@,
            max_width as int,
            style,
        );
        proof {
            assert(all.skip(0) =~= all);
            if all.len() == 0 {
                assert(all.skip(0) =~= Seq::<Seq<char>>::empty());
            }
        }
        let mut k: usize = 0;
        let mut cx: u16 = x;
        while k < gs.len()
            invariant
                k <= gs@.len(),
                gs@.len() == all.len(),
                forall|i: int| 0 <= i < gs@.len() ==> #[trigger] gs@[i]@ == all[i],
                sound(self),
                self.area == old(self).area,
                self.area.x <= x <= cx,
                self.area.y <= y < self.area.y + self.area.height,
                remaining == 0 || cx + remaining <= self.area.right_spec(),
                self.area.right_spec() <= 0xffff,
                write_items(self@, cx as int, y as int, laid_out(all.skip(k as int)), remaining as int, style)
                    == target,
            ensures
                sound(self),
                self.area == old(self).area,
                cx >= x,
                (self@, cx as int) == target,
            decreases gs@.len() - k,
        {
            let g = &gs[k];
            proof {
                assert(all.skip(k as int).drop_first() =~= all.skip(k as int + 1));
                assert(all.skip(k as int)[0] == all[k as int]);
            }
            if contains_control(g) {
                k = k + 1;
                proof {
                    if k == gs.len() {
                        assert(all.skip(k as int) =~= Seq::<Seq<char>>::empty());
                    }
                }
                continue;
            }
            let w = symbol_width(g.as_str());
            if w == 0 {
                k = k + 1;
                proof {
                    if k == gs.len() {
                        assert(all.skip(k as int) =~= Seq::<Seq<char>>::empty());
                    }
                }
                continue;
            }
            let ghost items = laid_out(all.skip(k as int));
            proof {
                assert(items[0] == (all[k as int], w as int));
                assert(items.drop_first() =~= laid_out(all.skip(k as int + 1)));
            }
            if w > remaining {
                break;
            }
            let ghost before = self@;
            self.put_symbol(cx, y, g, style);
            let ghost shown = self@;
            let end: u16 = cx + w;
            let mut j: u16 = cx + 1;
            proof {
                lemma_blank_run_keeps(shown, cx as int + 1, end as int, y as int);
            }
            while j < end
                invariant
                    cx < j,
                    j <= end || end <= cx + 1,
                    end == cx + w,
                    end <= self.area.right_spec(),
                    self.area.right_spec() <= 0xffff,
                    sound(self),
                    self.area == old(self).area,
                    shown.0 == self.area,
                    shown.1.len() == self.area.width * self.area.height,
                    blank_run(self@, j as int, end as int, y as int) == blank_run(
                        shown,
                        cx as int + 1,
                        end as int,
                        y as int,
                    ),
                decreases end - j,
            {
                self.reset_at(j, y);
                j = j + 1;
            }
            cx = end;
            remaining = remaining - w;
            k = k + 1;
            proof {
                if k == gs.len() {
                    assert(all.skip(k as int) =~= Seq::<Seq<char>>::empty());
                }
            }
        }
        cx
    }
}

} // verus!
