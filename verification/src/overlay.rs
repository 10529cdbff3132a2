//! The cell side of the edge overlay drawn over converted 3d frames: which
//! source block each destination cell summarizes, and how detected edges
//! land in the buffer. Measuring the gradients is the caller's; the
//! overlay draws a character per edge direction in the interior of the
//! destination, leaving every other cell, and the destination's border,
//! as the base conversion left it.

use vstd::prelude::*;

use crate::braille::{col_pos, row_pos};
use crate::buffer::{in_area, index_in, lemma_area_fits, Buffer, CellView};
use crate::compositor::{cell_at, sound};
use crate::draw::{
    lemma_put_same, lemma_region_ends, lemma_region_step, region_map, with_fg, with_style,
    with_symbol,
};
use crate::geometry::Rect;
use crate::render3d::EdgeCharacters;
use crate::strings::string_of_char;
use crate::style::{Color, Style};

verus! {

/// The direction an edge runs in, perpendicular to its gradient.
#[derive(Clone, Copy, Debug, PartialEq, Eq, Structural)]
pub enum EdgeDirection {
    /// Left to right.
    Horizontal,
    /// Top to bottom.
    Vertical,
    /// Rising to the right.
    Rising,
    /// Falling to the right.
    Falling,
}

/// The character an edge in `direction` draws.
pub open spec fn edge_char_spec(characters: EdgeCharacters, direction: EdgeDirection) -> char {
    match direction {
        EdgeDirection::Horizontal => characters.horizontal,
        EdgeDirection::Vertical => characters.vertical,
        EdgeDirection::Rising => characters.rising,
        EdgeDirection::Falling => characters.falling,
    }
}

/// The character an edge in `direction` draws; see [`edge_char_spec`].
pub fn edge_char(characters: EdgeCharacters, direction: EdgeDirection) -> (c: char)
    ensures
        c == edge_char_spec(characters, direction),
{
    match direction {
        EdgeDirection::Horizontal => characters.horizontal,
        EdgeDirection::Vertical => characters.vertical,
        EdgeDirection::Rising => characters.rising,
        EdgeDirection::Falling => characters.falling,
    }
}

/// The half-open span of source coordinates destination index `k` of
/// `count` covers over `len` source coordinates: ratio-mapped and always
/// at least one wide.
pub open spec fn block_span(len: int, k: int, count: int) -> (int, int) {
    let start = if k * len / count < len - 1 {
        k * len / count
    } else {
        len - 1
    };
    let end = if (k + 1) * len / count < start + 1 {
        start + 1
    } else if (k + 1) * len / count > len {
        len
    } else {
        (k + 1) * len / count
    };
    (start, end)
}

/// The source block a destination cell covers, as column and row spans,
/// for a `size` frame over a `grid` of destination cells; see
/// [`block_span`].
pub fn cell_block(size: (u32, u32), cell: (usize, usize), grid: (usize, usize)) -> (block: (
    (usize, usize),
    (usize, usize),
))
    requires
        size.0 > 0,
        size.1 > 0,
        cell.0 < grid.0,
        cell.1 < grid.1,
        grid.0 * size.0 <= usize::MAX,
        grid.1 * size.1 <= usize::MAX,
    ensures
        (block.0.0 as int, block.0.1 as int) == block_span(size.0 as int, cell.0 as int, grid.0 as int),
        (block.1.0 as int, block.1.1 as int) == block_span(size.1 as int, cell.1 as int, grid.1 as int),
        block.0.0 < block.0.1 <= size.0,
        block.1.0 < block.1.1 <= size.1,
{
    let (width, height) = (size.0 as usize, size.1 as usize);
    let columns = span(width, cell.0, grid.0);
    let rows = span(height, cell.1, grid.1);
    (columns, rows)
}

/// One axis of [`cell_block`].
fn span(len: usize, k: usize, count: usize) -> (r: (usize, usize))
    requires
        len > 0,
        k < count,
        count * len <= usize::MAX,
    ensures
        (r.0 as int, r.1 as int) == block_span(len as int, k as int, count as int),
        r.0 < r.1 <= len,
{
    proof {
        assert((k + 1) * len <= count * len) by (nonlinear_arith)
            requires
                k + 1 <= count,
                len > 0,
        ;
        assert(k * len <= (k + 1) * len) by (nonlinear_arith)
            requires
                len > 0,
        ;
    }
    let lower = k * len / count;
    let start = if lower < len - 1 {
        lower
    } else {
        len - 1
    };
    let upper = (k + 1) * len / count;
    let end = if upper < start + 1 {
        start + 1
    } else if upper > len {
        len
    } else {
        upper
    };
    (start, end)
}

/// `dest` without its outermost ring of cells.
pub open spec fn interior(dest: Rect) -> Rect {
    Rect {
        x: (dest.x + 1) as u16,
        y: (dest.y + 1) as u16,
        width: (dest.width - 2) as u16,
        height: (dest.height - 2) as u16,
    }
}

/// What the overlay makes of a cell of `dest`: where the cell has an
/// edge, its direction's character, in `color` when one is set; the cell
/// unchanged otherwise. Directions are given per dest cell, row-major.
pub open spec fn edge_drawn(
    dest: Rect,
    characters: EdgeCharacters,
    color: Option<Color>,
    directions: Seq<Option<EdgeDirection>>,
) -> spec_fn(CellView, int, int) -> CellView {
    |v: CellView, x: int, y: int|
        match directions[index_in(dest, x, y)] {
            Some(d) => {
                let drawn = with_symbol(v, seq![edge_char_spec(characters, d)]);
                match color {
                    Some(c) => with_fg(drawn, c),
                    None => drawn,
                }
            },
            None => v,
        }
}

/// Applying no style changes nothing.
proof fn lemma_plain_style(v: CellView)
    ensures
        with_style(v, Style::plain()) == v,
{
    let bits = v.4.bits;
    assert((bits | 0u16) & !0u16 == bits) by (bit_vector);
}

/// Draws detected edges over a converted frame in `dest`: each interior
/// cell of `dest` (all but its outermost ring) with an edge shows its
/// direction's character, in `color` when one is set; cells without an
/// edge, the outer ring, and everything outside `dest` are untouched. A
/// destination narrower or shorter than three cells has no interior and
/// draws nothing. `directions` holds each dest cell's edge, row-major.
pub fn draw_edges(
    buffer: &mut Buffer,
    dest: Rect,
    characters: EdgeCharacters,
    color: Option<Color>,
    directions: &[Option<EdgeDirection>],
)
    requires
        sound(old(buffer)),
        dest.fits(),
        directions@.len() == dest.width * dest.height,
    ensures
        sound(final(buffer)),
        final(buffer).area == old(buffer).area,
        final(buffer)@ == if dest.width >= 3 && dest.height >= 3 {
            (old(buffer)@.0, region_map(
                old(buffer)@,
                interior(dest),
                interior(dest).width * interior(dest).height,
                edge_drawn(dest, characters, color, directions@),
            ))
        } else {
            old(buffer)@
        },
{
    if dest.width < 3 || dest.height < 3 {
        return;
    }
    let inner = Rect { x: dest.x + 1, y: dest.y + 1, width: dest.width - 2, height: dest.height - 2 };
    let ghost f = edge_drawn(dest, characters, color, directions@);
    proof {
        lemma_area_fits(inner);
        lemma_area_fits(dest);
        lemma_region_ends(buffer@, inner, f);
    }
    let width = inner.width as usize;
    let n = width * inner.height as usize;
    let dest_width = dest.width as usize;
    let ghost m0 = buffer@;
    let mut i: usize = 0;
    while i < n
        invariant
            i <= n,
            n == inner.width * inner.height,
            width == inner.width,
            width > 0,
            inner == interior(dest),
            inner.fits(),
            dest.width >= 3,
            dest.height >= 3,
            dest_width == dest.width,
            dest.fits(),
            directions@.len() == dest.width * dest.height,
            f == edge_drawn(dest, characters, color, directions@),
            sound(buffer),
            buffer.area == m0.0,
            m0.1.len() == m0.0.width * m0.0.height,
            buffer@ == (m0.0, region_map(m0, inner, i as int, f)),
        decreases n - i,
    {
        proof {
            lemma_region_step(m0, inner, i as int, f);
            lemma_put_same(buffer@, col_pos(inner, i as int), row_pos(inner, i as int));
            crate::buffer::lemma_index_position(inner, i as int);
        }
        let column = i % width + 1;
        let row = i / width + 1;
        let x = inner.x + (i % width) as u16;
        let y = inner.y + (i / width) as u16;
        proof {
            assert(x == crate::buffer::col_of(inner, i as int));
            assert(y == crate::buffer::row_of(inner, i as int));
            assert(in_area(dest, x as int, y as int));
            crate::buffer::lemma_index_in_bounds(dest, x as int, y as int);
            assert(row * dest_width + column < dest_width * dest.height) by (nonlinear_arith)
                requires
                    row < dest.height,
                    column < dest_width,
            ;
            assert(index_in(dest, x as int, y as int) == row * dest_width + column);
            lemma_area_fits(dest);
            assert(row * dest_width <= row * dest_width + column);
        }
        let k = row * dest_width + column;
        match directions[k] {
            Some(direction) => {
                let s = string_of_char(edge_char(characters, direction));
                match color {
                    Some(c) => buffer.put_fg_symbol(x, y, &s, c),
                    None => {
                        proof {
                            lemma_plain_style(with_symbol(cell_at(buffer@, x as int, y as int), s@));
                        }
                        buffer.put_symbol(x, y, &s, Style::new());
                    },
                }
            },
            None => {},
        }
        i = i + 1;
    }
}

/// An edge draws the character configured for its own direction.
pub proof fn lemma_edges_draw_their_own_character(characters: EdgeCharacters)
    ensures
        edge_char_spec(characters, EdgeDirection::Horizontal) == characters.horizontal,
        edge_char_spec(characters, EdgeDirection::Vertical) == characters.vertical,
        edge_char_spec(characters, EdgeDirection::Rising) == characters.rising,
        edge_char_spec(characters, EdgeDirection::Falling) == characters.falling,
{
}

} // verus!
