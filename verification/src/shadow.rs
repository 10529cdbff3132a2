//! Box shadows in cells. A shadow has no blur at cell resolution: its
//! offset and its spread (with half its blur) move and grow the node's
//! rect, and the cells of that rect outside the node are dimmed toward the
//! shadow's color. Which cells those are is decided here; how a cell's
//! color dims is left to the caller.

use vstd::prelude::*;

use crate::bui::{clipped, clipped_spec};
use crate::geometry::Rect;

verus! {

/// The larger of two integers.
pub open spec fn max_of(a: int, b: int) -> int {
    if a > b {
        a
    } else {
        b
    }
}

/// The rect a shadow covers: the node's `rect` moved by `offset` and grown
/// by `grow` cells on every side, cut at the screen's top-left corner;
/// `None` when nothing is left.
pub open spec fn inflated_spec(rect: Rect, offset: (i32, i32), grow: i32) -> Option<Rect> {
    let left = rect.x + offset.0 - grow;
    let top = rect.y + offset.1 - grow;
    let width = rect.width + 2 * grow;
    let height = rect.height + 2 * grow;
    if width <= 0 || height <= 0 {
        None
    } else {
        let clip_x = max_of(left, 0);
        let clip_y = max_of(top, 0);
        let w = max_of(width - (clip_x - left), 0) as u16;
        let h = max_of(height - (clip_y - top), 0) as u16;
        if w > 0 && h > 0 {
            Some(Rect::new_spec(clip_x as u16, clip_y as u16, w, h))
        } else {
            None
        }
    }
}

/// The rect a shadow covers; see [`inflated_spec`]. `offset` and `grow`
/// are in whole cells, already rounded.
pub fn offset_and_inflate(rect: Rect, offset: (i32, i32), grow: i32) -> (r: Option<Rect>)
    requires
        i32::MIN <= 2 * grow <= i32::MAX,
        i32::MIN <= rect.x + offset.0 <= i32::MAX,
        i32::MIN < rect.x + offset.0 - grow <= i32::MAX,
        i32::MIN <= rect.y + offset.1 <= i32::MAX,
        i32::MIN < rect.y + offset.1 - grow <= i32::MAX,
        rect.width + 2 * grow <= i32::MAX,
        rect.height + 2 * grow <= i32::MAX,
    ensures
        r == inflated_spec(rect, offset, grow),
{
    let left: i32 = rect.x as i32 + offset.0 - grow;
    let top: i32 = rect.y as i32 + offset.1 - grow;
    let width: i32 = rect.width as i32 + 2 * grow;
    let height: i32 = rect.height as i32 + 2 * grow;
    if width <= 0 || height <= 0 {
        return None;
    }
    let clip_x: i32 = if left > 0 {
        left
    } else {
        0
    };
    let clip_y: i32 = if top > 0 {
        top
    } else {
        0
    };
    let cut_w: i32 = width - (clip_x - left);
    let cut_h: i32 = height - (clip_y - top);
    let w = #[verifier::truncate] ((if cut_w > 0 {
        cut_w
    } else {
        0
    }) as u16);
    let h = #[verifier::truncate] ((if cut_h > 0 {
        cut_h
    } else {
        0
    }) as u16);
    if w > 0 && h > 0 {
        let x = #[verifier::truncate] (clip_x as u16);
        let y = #[verifier::truncate] (clip_y as u16);
        Some(Rect::new(x, y, w, h))
    } else {
        None
    }
}

/// Whether a shadow over `shadow` dims cell `(x, y)` of a node over
/// `node`: the cell is among the shadow's visible cells and outside the
/// node.
pub open spec fn shadow_dims(shadow: Rect, node: Rect, area: Rect, clip: Option<Rect>, x: int, y: int) -> bool {
    clipped_spec(shadow, area, clip).contains_spec(x, y) && !node.contains_spec(x, y)
}

/// The cells among the first `k` of `bounds`, row-major, that lie outside
/// `node`.
pub open spec fn cells_outside(bounds: Rect, node: Rect, k: int) -> Seq<(u16, u16)>
    decreases k,
{
    if k <= 0 || bounds.width == 0 {
        Seq::empty()
    } else {
        let earlier = cells_outside(bounds, node, k - 1);
        let x = bounds.x + (k - 1) % (bounds.width as int);
        let y = bounds.y + (k - 1) / (bounds.width as int);
        if node.contains_spec(x, y) {
            earlier
        } else {
            earlier.push((x as u16, y as u16))
        }
    }
}

/// The cells a shadow over `shadow` dims for a node over `node`, in a
/// buffer over `area` under an optional `clip`: the shadow's visible
/// cells outside the node, row-major.
pub fn shadow_cells(shadow: Rect, node: Rect, area: Rect, clip: Option<Rect>) -> (cells: Vec<(u16, u16)>)
    ensures
        ({
            let bounds = clipped_spec(shadow, area, clip);
            cells@ == cells_outside(bounds, node, bounds.width * bounds.height)
        }),
        forall|k: int|
            0 <= k < cells@.len() ==> shadow_dims(
                shadow,
                node,
                area,
                clip,
                (#[trigger] cells@[k]).0 as int,
                cells@[k].1 as int,
            ),
{
    let bounds = clipped(shadow, area, clip);
    let mut cells: Vec<(u16, u16)> = Vec::new();
    proof {
        crate::buffer::lemma_area_fits(bounds);
        lemma_clipped_fits(shadow, area, clip);
    }
    let width = bounds.width as usize;
    let n: usize = width * bounds.height as usize;
    if width == 0 {
        return cells;
    }
    let mut i: usize = 0;
    while i < n
        invariant
            i <= n,
            n == bounds.width * bounds.height,
            width == bounds.width,
            width > 0,
            bounds == clipped_spec(shadow, area, clip),
            bounds.fits(),
            cells@ == cells_outside(bounds, node, i as int),
            forall|k: int|
                0 <= k < cells@.len() ==> shadow_dims(
                    shadow,
                    node,
                    area,
                    clip,
                    (#[trigger] cells@[k]).0 as int,
                    cells@[k].1 as int,
                ),
        decreases n - i,
    {
        proof {
            crate::buffer::lemma_index_position(bounds, i as int);
        }
        let x = bounds.x + (i % width) as u16;
        let y = bounds.y + (i / width) as u16;
        if !node.contains(crate::geometry::Position::new(x, y)) {
            cells.push((x, y));
        }
        i = i + 1;
    }
    cells
}

/// The visible cells of a rect fit in `u16` coordinates.
proof fn lemma_clipped_fits(rect: Rect, area: Rect, clip: Option<Rect>)
    ensures
        clipped_spec(rect, area, clip).fits(),
{
    crate::geometry::lemma_intersection_fits(rect, area);
    if let Some(c) = clip {
        crate::geometry::lemma_intersection_fits(rect.intersection_spec(area), c);
    }
}

} // verus!
