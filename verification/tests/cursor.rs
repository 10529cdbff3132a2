use plurimus::cursor::{cursor_update, CursorUpdate, PreviousCursor, TerminalCursor};
use plurimus::geometry::Position;

#[test]
fn a_cursor_with_no_cell_stays_hidden() {
    let update = cursor_update(TerminalCursor::default(), PreviousCursor::default()).unwrap();
    assert_eq!(update, CursorUpdate { move_to: None, show: false, hide: true });
}

#[test]
fn setting_a_cell_shows_the_cursor_there() {
    let update = cursor_update(TerminalCursor::at(Position::new(5, 2)), PreviousCursor::Unknown).unwrap();
    assert_eq!(update.move_to, Some(Position::new(5, 2)));
    assert!(update.show);
}

#[test]
fn clearing_the_cell_hides_it_again() {
    let shown = PreviousCursor::Applied(Some(Position::new(1, 1)));
    let update = cursor_update(TerminalCursor::hidden(), shown).unwrap();
    assert!(update.hide);
    assert_eq!(update.move_to, None);
}

#[test]
fn the_cursor_moves_on_a_frame_that_draws_nothing() {
    let shown = PreviousCursor::Applied(Some(Position::new(0, 0)));
    let update = cursor_update(TerminalCursor::at(Position::new(7, 1)), shown).unwrap();
    assert_eq!(update, CursorUpdate { move_to: Some(Position::new(7, 1)), show: false, hide: false });
}

#[test]
fn an_applied_cursor_asks_nothing() {
    let cursor = TerminalCursor::at(Position::new(3, 3));
    assert_eq!(cursor_update(cursor, PreviousCursor::Applied(cursor.cell)), None);
    assert_eq!(
        cursor_update(TerminalCursor::hidden(), PreviousCursor::Applied(None)),
        None
    );
}
