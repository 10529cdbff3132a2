//! What the presenter does with a composed frame: whether the terminal is
//! cleared, whether cells are drawn, and what the frame is diffed against
//! next time; and which I/O failures only skip a frame.

use vstd::prelude::*;

use crate::geometry::Rect;

verus! {

/// What the presenter diffs the next frame against.
#[derive(Clone, Copy, Debug, PartialEq, Eq, Structural)]
pub enum NextPrevious {
    /// The frame it diffed against this time.
    Keep,
    /// An empty frame of the new size: the terminal was cleared and
    /// nothing drawn since.
    Empty,
    /// This frame, once it was drawn and flushed.
    Frame,
}

/// One present, decided on plain values.
#[derive(Clone, Copy, Debug, PartialEq, Eq, Structural)]
pub struct PresentAction {
    /// Clear the terminal first.
    pub clear: bool,
    /// Draw the differing cells and flush.
    pub draw: bool,
    /// What the next frame is diffed against.
    pub next: NextPrevious,
}

/// Presents a frame of `frame_area` after one of `previous_area`.
/// `changed` is whether any cell differs from what is diffed against:
/// the previous frame when the size is unchanged, an empty frame of the
/// new size otherwise. A change of size clears the terminal; the differing
/// cells are drawn and flushed only when there are any, so an unchanged
/// frame of the same size leaves the terminal alone; and the previous
/// frame advances to this one only when it was drawn.
pub fn present_step(previous_area: Rect, frame_area: Rect, changed: bool) -> (action: PresentAction)
    ensures
        action.clear == (previous_area != frame_area),
        action.draw == changed,
        action.next == if changed {
            NextPrevious::Frame
        } else if previous_area != frame_area {
            NextPrevious::Empty
        } else {
            NextPrevious::Keep
        },
        previous_area == frame_area && !changed ==> !action.clear && !action.draw
            && action.next == NextPrevious::Keep,
{
    let resized = previous_area != frame_area;
    let next = if changed {
        NextPrevious::Frame
    } else if resized {
        NextPrevious::Empty
    } else {
        NextPrevious::Keep
    };
    PresentAction { clear: resized, draw: changed, next }
}

/// The kinds of I/O failure the presenter tells apart.
#[derive(Clone, Copy, Debug, PartialEq, Eq, Structural)]
pub enum IoFailure {
    /// The call was interrupted before it completed.
    Interrupted,
    /// The writer would have blocked.
    WouldBlock,
    /// Any other failure.
    Other,
}

/// Whether a failure only skips the frame: an interrupted or would-block
/// write is retried by the next frame, anything else fails the app.
pub fn is_transient(failure: IoFailure) -> (b: bool)
    ensures
        b == (failure == IoFailure::Interrupted || failure == IoFailure::WouldBlock),
{
    match failure {
        IoFailure::Interrupted | IoFailure::WouldBlock => true,
        IoFailure::Other => false,
    }
}

} // verus!
