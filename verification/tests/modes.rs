use plurimus::terminal::{input_modes, restore_steps, InputMode, RestoreStep};

#[test]
fn focus_reporting_is_enabled_whatever_else_is_asked_for() {
    assert!(input_modes(false, false, false).contains(&InputMode::FocusChange));
    assert!(input_modes(true, true, true).contains(&InputMode::FocusChange));
}

#[test]
fn the_optional_modes_stay_optional() {
    let none = input_modes(false, false, false);
    assert!(!none.contains(&InputMode::MouseCapture));
    assert!(!none.contains(&InputMode::BracketedPaste));

    let all = input_modes(false, true, true);
    assert!(all.contains(&InputMode::MouseCapture) && all.contains(&InputMode::BracketedPaste));
}

#[test]
fn the_kitty_protocol_is_pushed_first_and_popped_only_when_pushed() {
    assert_eq!(
        input_modes(true, true, false),
        vec![InputMode::KittyKeyboard, InputMode::MouseCapture, InputMode::FocusChange]
    );
    assert_eq!(restore_steps(true)[0], RestoreStep::PopKittyKeyboard);
    assert!(!restore_steps(false).contains(&RestoreStep::PopKittyKeyboard));
}

#[test]
fn restoring_turns_off_every_mode_entered() {
    let steps = restore_steps(false);
    for step in [
        RestoreStep::DisableMouseCapture,
        RestoreStep::DisableBracketedPaste,
        RestoreStep::DisableFocusChange,
        RestoreStep::LeaveAlternateScreen,
        RestoreStep::ShowCursor,
        RestoreStep::DisableRawMode,
    ] {
        assert!(steps.contains(&step));
    }
}
