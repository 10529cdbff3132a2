use plurimus::events::{
    autorepeat_press_at, classify_batch, convert_key, convert_mouse, forward_batch,
    RepeatEncoding, TermEvent, TermKeyCode, TermKeyEvent, TermKeyKind, TermModifierKey,
    TermModifiers, TermMouseButton, TermMouseEvent, TermMouseKind, CONTROL, SHIFT,
};
use plurimus::geometry::Position;
use plurimus::input::{InputMessage, KeyCode, KeyKind, ModifierKey, MouseButton, MouseKind};

const NO_MODIFIERS: TermModifiers = TermModifiers { bits: 0 };

fn key(code: TermKeyCode, modifiers: TermModifiers) -> TermKeyEvent {
    TermKeyEvent { code, modifiers, kind: TermKeyKind::Press }
}

fn key_event(code: TermKeyCode, kind: TermKeyKind) -> TermEvent {
    TermEvent::Key(TermKeyEvent { code, modifiers: NO_MODIFIERS, kind })
}

fn held(code: TermKeyCode) -> [TermEvent; 2] {
    [key_event(code, TermKeyKind::Release), key_event(code, TermKeyKind::Press)]
}

fn moved() -> TermEvent {
    TermEvent::Mouse(TermMouseEvent { kind: TermMouseKind::Moved, column: 1, row: 1, modifiers: NO_MODIFIERS })
}

#[test]
fn a_release_then_press_of_one_key_is_the_repeat_it_is() {
    assert_eq!(autorepeat_press_at(&held(TermKeyCode::Char('w'))), Some(1));
}

#[test]
fn a_mouse_report_between_the_two_does_not_break_the_pair() {
    let [release, press] = held(TermKeyCode::Right);
    let batch = [release, moved(), moved(), press];
    assert_eq!(autorepeat_press_at(&batch), Some(3));
}

#[test]
fn another_key_between_the_two_does_break_the_pair() {
    let [release, press] = held(TermKeyCode::Char('w'));
    let batch = [release, key_event(TermKeyCode::Char('d'), TermKeyKind::Press), press];
    assert_eq!(autorepeat_press_at(&batch), None);
}

#[test]
fn a_release_that_ends_a_hold_stays_a_release() {
    let release = key_event(TermKeyCode::Char('w'), TermKeyKind::Release);
    assert_eq!(autorepeat_press_at(std::slice::from_ref(&release)), None);
    assert_eq!(autorepeat_press_at(&[release, moved()]), None);
}

#[test]
fn a_different_key_pressed_after_a_release_is_not_a_repeat() {
    let batch = [
        key_event(TermKeyCode::Char('w'), TermKeyKind::Release),
        key_event(TermKeyCode::Char('d'), TermKeyKind::Press),
    ];
    assert_eq!(autorepeat_press_at(&batch), None);
}

#[test]
fn a_press_first_is_never_the_start_of_a_pair() {
    let batch = [
        key_event(TermKeyCode::Char('w'), TermKeyKind::Press),
        key_event(TermKeyCode::Char('w'), TermKeyKind::Release),
    ];
    assert_eq!(autorepeat_press_at(&batch), None);
}

#[test]
fn converts_char_with_modifiers() {
    let message = convert_key(key(TermKeyCode::Char('q'), TermModifiers { bits: CONTROL })).unwrap();
    assert_eq!(message.code, KeyCode::Char('q'));
    assert!(message.modifiers.ctrl);
    assert!(!message.modifiers.alt);
    assert_eq!(message.kind, KeyKind::Press);
}

#[test]
fn converts_release_kind() {
    let mut event = key(TermKeyCode::Char('w'), NO_MODIFIERS);
    event.kind = TermKeyKind::Release;
    assert_eq!(convert_key(event).unwrap().kind, KeyKind::Release);
}

#[test]
fn back_tab_becomes_shifted_tab() {
    let message = convert_key(key(TermKeyCode::BackTab, NO_MODIFIERS)).unwrap();
    assert_eq!(message.code, KeyCode::Tab);
    assert!(message.modifiers.shift);

    let flagged = key(TermKeyCode::BackTab, TermModifiers { bits: SHIFT });
    assert_eq!(convert_key(flagged).unwrap(), message);
}

#[test]
fn an_uppercase_letter_carries_shift_on_either_tier() {
    let message = convert_key(key(TermKeyCode::Char('W'), NO_MODIFIERS)).unwrap();
    assert_eq!(message.code, KeyCode::Char('W'));
    assert!(message.modifiers.shift);

    let legacy = key(TermKeyCode::Char('W'), TermModifiers { bits: SHIFT });
    assert_eq!(convert_key(legacy).unwrap(), message);
}

#[test]
fn an_unshifted_letter_is_left_alone() {
    let message = convert_key(key(TermKeyCode::Char('w'), NO_MODIFIERS)).unwrap();
    assert!(!message.modifiers.shift);
}

#[test]
fn a_shifted_symbol_keeps_the_bit_it_arrived_with() {
    let bare = convert_key(key(TermKeyCode::Char(':'), NO_MODIFIERS)).unwrap();
    assert!(!bare.modifiers.shift);

    let flagged = convert_key(key(TermKeyCode::Char(':'), TermModifiers { bits: SHIFT })).unwrap();
    assert!(flagged.modifiers.shift);
}

#[test]
fn plain_tab_carries_no_shift() {
    let message = convert_key(key(TermKeyCode::Tab, NO_MODIFIERS)).unwrap();
    assert_eq!(message.code, KeyCode::Tab);
    assert!(!message.modifiers.shift);
}

#[test]
fn drops_unmapped_keys() {
    assert_eq!(convert_key(key(TermKeyCode::KeypadBegin, NO_MODIFIERS)), None);
}

#[test]
fn converts_lock_keys() {
    assert_eq!(convert_key(key(TermKeyCode::CapsLock, NO_MODIFIERS)).unwrap().code, KeyCode::CapsLock);

    let mut num = key(TermKeyCode::NumLock, NO_MODIFIERS);
    num.kind = TermKeyKind::Release;
    let message = convert_key(num).unwrap();
    assert_eq!(message.code, KeyCode::NumLock);
    assert_eq!(message.kind, KeyKind::Release);

    assert_eq!(
        convert_key(key(TermKeyCode::ScrollLock, NO_MODIFIERS)).unwrap().code,
        KeyCode::ScrollLock
    );
}

#[test]
fn converts_modifier_keys_with_sides() {
    let mut event = key(
        TermKeyCode::Modifier(TermModifierKey::RightShift),
        TermModifiers { bits: SHIFT },
    );
    event.kind = TermKeyKind::Release;
    let message = convert_key(event).unwrap();
    assert_eq!(message.code, KeyCode::Modifier(ModifierKey::ShiftRight));
    assert_eq!(message.kind, KeyKind::Release);

    let iso = key(TermKeyCode::Modifier(TermModifierKey::IsoLevel3Shift), NO_MODIFIERS);
    assert_eq!(convert_key(iso), None);
}

#[test]
fn converts_mouse_kinds_in_cell_coordinates() {
    let down = TermMouseEvent {
        kind: TermMouseKind::Down(TermMouseButton::Left),
        column: 7,
        row: 3,
        modifiers: NO_MODIFIERS,
    };
    let message = convert_mouse(down);
    assert_eq!(message.kind, MouseKind::Down(MouseButton::Left));
    assert_eq!(message.position, Position::new(7, 3));

    let sideways = TermMouseEvent { kind: TermMouseKind::ScrollLeft, ..down };
    assert_eq!(convert_mouse(sideways).kind, MouseKind::ScrollLeft);
}

#[test]
fn a_paired_hold_forwards_one_repeat_and_learns_the_encoding() {
    let [release, press] = held(TermKeyCode::Char('w'));
    let mut batch = vec![release, moved(), press];
    let mut encoding = RepeatEncoding::default();

    let messages = forward_batch(&mut batch, &mut encoding);

    assert_eq!(encoding, RepeatEncoding::Paired);
    assert_eq!(messages.len(), 2);
    assert!(matches!(messages[0], InputMessage::Mouse(_)));
    match &messages[1] {
        InputMessage::Key(k) => {
            assert_eq!(k.code, KeyCode::Char('w'));
            assert_eq!(k.kind, KeyKind::Repeat);
        }
        other => panic!("expected a key, got {other:?}"),
    }
}

#[test]
fn native_repeats_switch_pairing_off() {
    let mut encoding = RepeatEncoding::Unknown;
    let batch = [key_event(TermKeyCode::Char('a'), TermKeyKind::Repeat)];
    classify_batch(&batch, &mut encoding);
    assert_eq!(encoding, RepeatEncoding::Native);

    let [release, press] = held(TermKeyCode::Char('w'));
    let mut batch = vec![release, press];
    let messages = forward_batch(&mut batch, &mut encoding);
    assert_eq!(messages.len(), 2, "a native terminal's release is a real key-up");
}

#[test]
fn other_events_forward_their_messages() {
    let mut batch = vec![
        TermEvent::Paste("clip".to_owned()),
        TermEvent::FocusGained,
        TermEvent::Resize(80, 24),
        key_event(TermKeyCode::Media, TermKeyKind::Press),
    ];
    let mut encoding = RepeatEncoding::Unknown;
    let messages = forward_batch(&mut batch, &mut encoding);
    assert_eq!(messages.len(), 3);
    assert!(matches!(&messages[0], InputMessage::Paste(p) if p.0 == "clip"));
    assert!(matches!(&messages[1], InputMessage::Focus(f) if f.gained));
    assert!(matches!(&messages[2], InputMessage::Resize(r) if r.cols == 80 && r.rows == 24));
}
