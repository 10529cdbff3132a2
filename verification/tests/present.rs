use plurimus::geometry::Rect;
use plurimus::present::{is_transient, present_step, IoFailure, NextPrevious, PresentAction};

#[test]
fn draws_initial_frame_then_skips_unchanged() {
    let empty = Rect::new(0, 0, 0, 0);
    let area = Rect::new(0, 0, 4, 2);

    let first = present_step(empty, area, true);
    assert_eq!(first, PresentAction { clear: true, draw: true, next: NextPrevious::Frame });

    let second = present_step(area, area, false);
    assert_eq!(second, PresentAction { clear: false, draw: false, next: NextPrevious::Keep });
}

#[test]
fn area_change_clears_and_redraws_fully() {
    let small = Rect::new(0, 0, 4, 2);
    let large = Rect::new(0, 0, 6, 3);
    assert_eq!(
        present_step(small, large, true),
        PresentAction { clear: true, draw: true, next: NextPrevious::Frame }
    );
}

#[test]
fn a_resize_to_a_blank_frame_clears_and_diffs_against_empty_next() {
    let small = Rect::new(0, 0, 4, 2);
    let large = Rect::new(0, 0, 6, 3);
    assert_eq!(
        present_step(small, large, false),
        PresentAction { clear: true, draw: false, next: NextPrevious::Empty }
    );
}

#[test]
fn a_changed_frame_of_the_same_size_draws_without_clearing() {
    let area = Rect::new(0, 0, 4, 2);
    assert_eq!(
        present_step(area, area, true),
        PresentAction { clear: false, draw: true, next: NextPrevious::Frame }
    );
}

#[test]
fn only_interrupted_and_would_block_skip_a_frame() {
    assert!(is_transient(IoFailure::Interrupted));
    assert!(is_transient(IoFailure::WouldBlock));
    assert!(!is_transient(IoFailure::Other));
}
