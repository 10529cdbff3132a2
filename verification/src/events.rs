//! Translates terminal events into input messages.
//!
//! The terminal reports what it was sent; the input contract describes what
//! happened. Mouse positions become cell coordinates, terminal quirks are
//! normalized into one shape - shift-tab is a shifted Tab, an uppercase
//! letter carries shift on every protocol tier, a held key is a repeat even
//! where the terminal encodes it as a release and a press - and a resize
//! becomes a message rather than something anyone polls for.
//!
//! The `Term*` types hold a terminal event as the backend reported it.

use vstd::prelude::*;

use crate::geometry::Position;
use crate::input::{
    FocusMessage, InputMessage, KeyCode, KeyKind, KeyMessage, KeyModifiers, ModifierKey,
    MouseButton, MouseKind, MouseMessage, PasteMessage, TerminalResized,
};
use crate::unicode::{is_uppercase, unicode_uppercase};

verus! {

/// A modifier key as the terminal reports it.
#[derive(Clone, Copy, Debug, PartialEq, Eq, Structural)]
pub enum TermModifierKey {
    /// Left shift.
    LeftShift,
    /// Left control.
    LeftControl,
    /// Left alt.
    LeftAlt,
    /// Left super.
    LeftSuper,
    /// Left hyper.
    LeftHyper,
    /// Left meta.
    LeftMeta,
    /// Right shift.
    RightShift,
    /// Right control.
    RightControl,
    /// Right alt.
    RightAlt,
    /// Right super.
    RightSuper,
    /// Right hyper.
    RightHyper,
    /// Right meta.
    RightMeta,
    /// ISO level 3 shift (AltGr).
    IsoLevel3Shift,
    /// ISO level 5 shift.
    IsoLevel5Shift,
}

/// A key as the terminal reports it.
#[derive(Clone, Copy, Debug, PartialEq, Eq, Structural)]
pub enum TermKeyCode {
    /// Backspace.
    Backspace,
    /// Enter.
    Enter,
    /// Arrow left.
    Left,
    /// Arrow right.
    Right,
    /// Arrow up.
    Up,
    /// Arrow down.
    Down,
    /// Home.
    Home,
    /// End.
    End,
    /// Page up.
    PageUp,
    /// Page down.
    PageDown,
    /// Tab.
    Tab,
    /// Shift-tab.
    BackTab,
    /// Delete.
    Delete,
    /// Insert.
    Insert,
    /// A function key by number.
    F(u8),
    /// A character key.
    Char(char),
    /// Null.
    Null,
    /// Escape.
    Esc,
    /// Caps lock.
    CapsLock,
    /// Scroll lock.
    ScrollLock,
    /// Num lock.
    NumLock,
    /// Print screen.
    PrintScreen,
    /// Pause.
    Pause,
    /// Menu.
    Menu,
    /// The keypad's center key.
    KeypadBegin,
    /// A media key.
    Media,
    /// A modifier key on its own.
    Modifier(TermModifierKey),
}

/// What a key did, as the terminal reports it.
#[derive(Clone, Copy, Debug, PartialEq, Eq, Structural)]
pub enum TermKeyKind {
    /// Went down.
    Press,
    /// Repeated while held.
    Repeat,
    /// Came up.
    Release,
}

/// The terminal's modifier flags: shift, control, alt, super, hyper and
/// meta from the lowest bit up.
#[derive(Clone, Copy, Debug, PartialEq, Eq, Structural)]
pub struct TermModifiers {
    /// The flag bits.
    pub bits: u8,
}

/// The shift flag.
pub const SHIFT: u8 = 0x01;

/// The control flag.
pub const CONTROL: u8 = 0x02;

/// The alt flag.
pub const ALT: u8 = 0x04;

/// The super flag.
pub const SUPER: u8 = 0x08;

/// The hyper flag.
pub const HYPER: u8 = 0x10;

/// The meta flag.
pub const META: u8 = 0x20;

/// Whether every bit of `flag` is set in `bits`.
pub open spec fn has_flag(bits: u8, flag: u8) -> bool {
    bits & flag == flag
}

/// A key event as the terminal reports it.
#[derive(Clone, Copy, Debug, PartialEq, Eq, Structural)]
pub struct TermKeyEvent {
    /// The key.
    pub code: TermKeyCode,
    /// The modifiers held.
    pub modifiers: TermModifiers,
    /// What the key did.
    pub kind: TermKeyKind,
}

/// A mouse button as the terminal reports it.
#[derive(Clone, Copy, Debug, PartialEq, Eq, Structural)]
pub enum TermMouseButton {
    /// Left button.
    Left,
    /// Right button.
    Right,
    /// Middle button.
    Middle,
}

/// What the mouse did, as the terminal reports it.
#[derive(Clone, Copy, Debug, PartialEq, Eq, Structural)]
pub enum TermMouseKind {
    /// A button went down.
    Down(TermMouseButton),
    /// A button came up.
    Up(TermMouseButton),
    /// The mouse moved with a button held.
    Drag(TermMouseButton),
    /// The mouse moved.
    Moved,
    /// The wheel turned down.
    ScrollDown,
    /// The wheel turned up.
    ScrollUp,
    /// The wheel tilted left.
    ScrollLeft,
    /// The wheel tilted right.
    ScrollRight,
}

/// A mouse event as the terminal reports it.
#[derive(Clone, Copy, Debug, PartialEq, Eq, Structural)]
pub struct TermMouseEvent {
    /// What the mouse did.
    pub kind: TermMouseKind,
    /// Column of the pointer.
    pub column: u16,
    /// Row of the pointer.
    pub row: u16,
    /// The modifiers held.
    pub modifiers: TermModifiers,
}

/// A terminal event.
#[derive(Debug)]
pub enum TermEvent {
    /// The terminal gained focus.
    FocusGained,
    /// The terminal lost focus.
    FocusLost,
    /// A key event.
    Key(TermKeyEvent),
    /// A mouse event.
    Mouse(TermMouseEvent),
    /// Pasted text.
    Paste(String),
    /// The terminal resized to columns and rows.
    Resize(u16, u16),
}

/// How the terminal encodes a held key, learned from what it sends.
///
/// A conforming terminal reports repeats. One that honors the protocol's
/// event types without detectable autorepeat sends a release immediately
/// followed by a press instead, and only that one needs the pair
/// recognized or a trailing release waited on.
#[derive(Clone, Copy, Debug, PartialEq, Eq, Structural)]
pub enum RepeatEncoding {
    /// Nothing learned yet.
    Unknown,
    /// The terminal reports repeats itself.
    Native,
    /// The terminal encodes a held key as a release-press pair.
    Paired,
}

impl Default for RepeatEncoding {
    /// Nothing learned yet.
    fn default() -> (e: RepeatEncoding)
        ensures
            e == RepeatEncoding::Unknown,
    {
        RepeatEncoding::Unknown
    }
}

/// The contract's kind for a terminal key kind.
pub open spec fn kind_spec(kind: TermKeyKind) -> KeyKind {
    match kind {
        TermKeyKind::Press => KeyKind::Press,
        TermKeyKind::Repeat => KeyKind::Repeat,
        TermKeyKind::Release => KeyKind::Release,
    }
}

/// The contract's kind for a terminal key kind.
pub fn convert_kind(kind: TermKeyKind) -> (k: KeyKind)
    ensures
        k == kind_spec(kind),
{
    match kind {
        TermKeyKind::Press => KeyKind::Press,
        TermKeyKind::Repeat => KeyKind::Repeat,
        TermKeyKind::Release => KeyKind::Release,
    }
}

/// The contract's key for a side-specific modifier key; the ISO level
/// shifts have none.
pub open spec fn modifier_key_spec(modifier: TermModifierKey) -> Option<KeyCode> {
    match modifier {
        TermModifierKey::LeftShift => Some(KeyCode::Modifier(ModifierKey::ShiftLeft)),
        TermModifierKey::RightShift => Some(KeyCode::Modifier(ModifierKey::ShiftRight)),
        TermModifierKey::LeftControl => Some(KeyCode::Modifier(ModifierKey::ControlLeft)),
        TermModifierKey::RightControl => Some(KeyCode::Modifier(ModifierKey::ControlRight)),
        TermModifierKey::LeftAlt => Some(KeyCode::Modifier(ModifierKey::AltLeft)),
        TermModifierKey::RightAlt => Some(KeyCode::Modifier(ModifierKey::AltRight)),
        TermModifierKey::LeftSuper => Some(KeyCode::Modifier(ModifierKey::SuperLeft)),
        TermModifierKey::RightSuper => Some(KeyCode::Modifier(ModifierKey::SuperRight)),
        TermModifierKey::LeftHyper => Some(KeyCode::Modifier(ModifierKey::HyperLeft)),
        TermModifierKey::RightHyper => Some(KeyCode::Modifier(ModifierKey::HyperRight)),
        TermModifierKey::LeftMeta => Some(KeyCode::Modifier(ModifierKey::MetaLeft)),
        TermModifierKey::RightMeta => Some(KeyCode::Modifier(ModifierKey::MetaRight)),
        TermModifierKey::IsoLevel3Shift | TermModifierKey::IsoLevel5Shift => None,
    }
}

/// The contract's key for a side-specific modifier key; the ISO level
/// shifts have none.
pub fn convert_modifier_key(modifier: TermModifierKey) -> (k: Option<KeyCode>)
    ensures
        k == modifier_key_spec(modifier),
{
    let key = match modifier {
        TermModifierKey::LeftShift => ModifierKey::ShiftLeft,
        TermModifierKey::RightShift => ModifierKey::ShiftRight,
        TermModifierKey::LeftControl => ModifierKey::ControlLeft,
        TermModifierKey::RightControl => ModifierKey::ControlRight,
        TermModifierKey::LeftAlt => ModifierKey::AltLeft,
        TermModifierKey::RightAlt => ModifierKey::AltRight,
        TermModifierKey::LeftSuper => ModifierKey::SuperLeft,
        TermModifierKey::RightSuper => ModifierKey::SuperRight,
        TermModifierKey::LeftHyper => ModifierKey::HyperLeft,
        TermModifierKey::RightHyper => ModifierKey::HyperRight,
        TermModifierKey::LeftMeta => ModifierKey::MetaLeft,
        TermModifierKey::RightMeta => ModifierKey::MetaRight,
        TermModifierKey::IsoLevel3Shift | TermModifierKey::IsoLevel5Shift => return None,
    };
    Some(KeyCode::Modifier(key))
}

/// The contract's key for a terminal key: shift-tab becomes Tab, and keys
/// the contract does not name (null, print screen, pause, menu, the
/// keypad center, media keys, the ISO level shifts) become `None`.
pub open spec fn code_spec(code: TermKeyCode) -> Option<KeyCode> {
    match code {
        TermKeyCode::Char(c) => Some(KeyCode::Char(c)),
        TermKeyCode::Enter => Some(KeyCode::Enter),
        TermKeyCode::Esc => Some(KeyCode::Esc),
        TermKeyCode::Tab | TermKeyCode::BackTab => Some(KeyCode::Tab),
        TermKeyCode::Backspace => Some(KeyCode::Backspace),
        TermKeyCode::Delete => Some(KeyCode::Delete),
        TermKeyCode::Insert => Some(KeyCode::Insert),
        TermKeyCode::Up => Some(KeyCode::Up),
        TermKeyCode::Down => Some(KeyCode::Down),
        TermKeyCode::Left => Some(KeyCode::Left),
        TermKeyCode::Right => Some(KeyCode::Right),
        TermKeyCode::Home => Some(KeyCode::Home),
        TermKeyCode::End => Some(KeyCode::End),
        TermKeyCode::PageUp => Some(KeyCode::PageUp),
        TermKeyCode::PageDown => Some(KeyCode::PageDown),
        TermKeyCode::F(n) => Some(KeyCode::F(n)),
        TermKeyCode::CapsLock => Some(KeyCode::CapsLock),
        TermKeyCode::NumLock => Some(KeyCode::NumLock),
        TermKeyCode::ScrollLock => Some(KeyCode::ScrollLock),
        TermKeyCode::Modifier(m) => modifier_key_spec(m),
        _ => None,
    }
}

/// The contract's key for a terminal key; see [`code_spec`].
pub fn convert_code(code: TermKeyCode) -> (k: Option<KeyCode>)
    ensures
        k == code_spec(code),
{
    match code {
        TermKeyCode::Char(c) => Some(KeyCode::Char(c)),
        TermKeyCode::Enter => Some(KeyCode::Enter),
        TermKeyCode::Esc => Some(KeyCode::Esc),
        TermKeyCode::Tab | TermKeyCode::BackTab => Some(KeyCode::Tab),
        TermKeyCode::Backspace => Some(KeyCode::Backspace),
        TermKeyCode::Delete => Some(KeyCode::Delete),
        TermKeyCode::Insert => Some(KeyCode::Insert),
        TermKeyCode::Up => Some(KeyCode::Up),
        TermKeyCode::Down => Some(KeyCode::Down),
        TermKeyCode::Left => Some(KeyCode::Left),
        TermKeyCode::Right => Some(KeyCode::Right),
        TermKeyCode::Home => Some(KeyCode::Home),
        TermKeyCode::End => Some(KeyCode::End),
        TermKeyCode::PageUp => Some(KeyCode::PageUp),
        TermKeyCode::PageDown => Some(KeyCode::PageDown),
        TermKeyCode::F(n) => Some(KeyCode::F(n)),
        TermKeyCode::CapsLock => Some(KeyCode::CapsLock),
        TermKeyCode::NumLock => Some(KeyCode::NumLock),
        TermKeyCode::ScrollLock => Some(KeyCode::ScrollLock),
        TermKeyCode::Modifier(modifier) => convert_modifier_key(modifier),
        _ => None,
    }
}

/// The contract's modifiers for the terminal's flags.
pub open spec fn modifiers_spec(modifiers: TermModifiers) -> KeyModifiers {
    KeyModifiers {
        ctrl: has_flag(modifiers.bits, CONTROL),
        alt: has_flag(modifiers.bits, ALT),
        shift: has_flag(modifiers.bits, SHIFT),
        super_key: has_flag(modifiers.bits, SUPER),
        hyper: has_flag(modifiers.bits, HYPER),
        meta: has_flag(modifiers.bits, META),
    }
}

/// The contract's modifiers for the terminal's flags.
pub fn convert_modifiers(modifiers: TermModifiers) -> (m: KeyModifiers)
    ensures
        m == modifiers_spec(modifiers),
{
    let bits = modifiers.bits;
    KeyModifiers::default().with_ctrl(bits & CONTROL == CONTROL).with_alt(bits & ALT == ALT).with_shift(
        bits & SHIFT == SHIFT,
    ).with_super_key(bits & SUPER == SUPER).with_hyper(bits & HYPER == HYPER).with_meta(
        bits & META == META,
    )
}

/// Whether `code` is a letter that shift produced: an uppercase character.
///
/// One protocol tier reports the shifted character and drops the shift
/// bit; the legacy tier reports the same uppercase character with the bit.
/// Restoring it makes one keystroke mean one thing on both. Only letters
/// can be recovered this way.
pub open spec fn shifted_letter_spec(code: KeyCode) -> bool {
    match code {
        KeyCode::Char(c) => unicode_uppercase(c),
        _ => false,
    }
}

/// Whether `code` is a letter that shift produced; see
/// [`shifted_letter_spec`].
pub fn is_shifted_letter(code: KeyCode) -> (b: bool)
    ensures
        b == shifted_letter_spec(code),
{
    match code {
        KeyCode::Char(c) => is_uppercase(c),
        _ => false,
    }
}

/// The key message for a terminal key event: `None` for keys the contract
/// does not name; shift is added for shift-tab and for uppercase letters.
pub open spec fn key_spec(key: TermKeyEvent) -> Option<KeyMessage> {
    match code_spec(key.code) {
        None => None,
        Some(code) => {
            let modifiers = modifiers_spec(key.modifiers);
            let shifted = key.code == TermKeyCode::BackTab || shifted_letter_spec(code);
            Some(
                KeyMessage {
                    code,
                    modifiers: if shifted {
                        KeyModifiers { shift: true, ..modifiers }
                    } else {
                        modifiers
                    },
                    kind: kind_spec(key.kind),
                },
            )
        },
    }
}

/// The key message for a terminal key event; see [`key_spec`].
pub fn convert_key(key: TermKeyEvent) -> (m: Option<KeyMessage>)
    ensures
        m == key_spec(key),
{
    let is_back_tab = key.code == TermKeyCode::BackTab;
    let code = match convert_code(key.code) {
        Some(code) => code,
        None => return None,
    };
    let modifiers = convert_modifiers(key.modifiers);
    Some(
        KeyMessage::new(
            code,
            if is_back_tab || is_shifted_letter(code) {
                modifiers.with_shift(true)
            } else {
                modifiers
            },
            convert_kind(key.kind),
        ),
    )
}

/// The contract's button for a terminal mouse button.
pub open spec fn button_spec(button: TermMouseButton) -> MouseButton {
    match button {
        TermMouseButton::Left => MouseButton::Left,
        TermMouseButton::Right => MouseButton::Right,
        TermMouseButton::Middle => MouseButton::Middle,
    }
}

/// The contract's button for a terminal mouse button.
pub fn convert_button(button: TermMouseButton) -> (b: MouseButton)
    ensures
        b == button_spec(button),
{
    match button {
        TermMouseButton::Left => MouseButton::Left,
        TermMouseButton::Right => MouseButton::Right,
        TermMouseButton::Middle => MouseButton::Middle,
    }
}

/// The contract's mouse kind for a terminal mouse kind.
pub open spec fn mouse_kind_spec(kind: TermMouseKind) -> MouseKind {
    match kind {
        TermMouseKind::Down(b) => MouseKind::Down(button_spec(b)),
        TermMouseKind::Up(b) => MouseKind::Up(button_spec(b)),
        TermMouseKind::Drag(b) => MouseKind::Drag(button_spec(b)),
        TermMouseKind::Moved => MouseKind::Moved,
        TermMouseKind::ScrollUp => MouseKind::ScrollUp,
        TermMouseKind::ScrollDown => MouseKind::ScrollDown,
        TermMouseKind::ScrollLeft => MouseKind::ScrollLeft,
        TermMouseKind::ScrollRight => MouseKind::ScrollRight,
    }
}

/// The contract's mouse kind for a terminal mouse kind.
pub fn convert_mouse_kind(kind: TermMouseKind) -> (k: MouseKind)
    ensures
        k == mouse_kind_spec(kind),
{
    match kind {
        TermMouseKind::Down(button) => MouseKind::Down(convert_button(button)),
        TermMouseKind::Up(button) => MouseKind::Up(convert_button(button)),
        TermMouseKind::Drag(button) => MouseKind::Drag(convert_button(button)),
        TermMouseKind::Moved => MouseKind::Moved,
        TermMouseKind::ScrollUp => MouseKind::ScrollUp,
        TermMouseKind::ScrollDown => MouseKind::ScrollDown,
        TermMouseKind::ScrollLeft => MouseKind::ScrollLeft,
        TermMouseKind::ScrollRight => MouseKind::ScrollRight,
    }
}

/// The mouse message for a terminal mouse event, at the cell it names.
pub open spec fn mouse_spec(mouse: TermMouseEvent) -> MouseMessage {
    MouseMessage {
        kind: mouse_kind_spec(mouse.kind),
        position: Position { x: mouse.column, y: mouse.row },
        modifiers: modifiers_spec(mouse.modifiers),
    }
}

/// The mouse message for a terminal mouse event, at the cell it names.
pub fn convert_mouse(mouse: TermMouseEvent) -> (m: MouseMessage)
    ensures
        m == mouse_spec(mouse),
{
    MouseMessage::new(
        convert_mouse_kind(mouse.kind),
        Position::new(mouse.column, mouse.row),
        convert_modifiers(mouse.modifiers),
    )
}

/// The key event `event` holds, if it is one.
pub open spec fn key_of(event: TermEvent) -> Option<TermKeyEvent> {
    match event {
        TermEvent::Key(key) => Some(key),
        _ => None,
    }
}

/// The first key event at or after `from`.
pub open spec fn first_key_from(events: Seq<TermEvent>, from: int) -> Option<int>
    decreases events.len() - from,
{
    if from < 0 || from >= events.len() {
        None
    } else if key_of(events[from]) is Some {
        Some(from)
    } else {
        first_key_from(events, from + 1)
    }
}

/// Where, counted from `start`, the press sits that makes
/// `events[start]` an autorepeat's release: `events[start]` is a key
/// release, and the next key event after it is a press of the same key.
/// Events that are not keys in between are stepped over; another key
/// event breaks the pair.
pub open spec fn pair_spec(events: Seq<TermEvent>, start: int) -> Option<int> {
    match key_of(events[start]) {
        Some(release) => if 0 <= start < events.len() && release.kind == TermKeyKind::Release {
            match first_key_from(events, start + 1) {
                Some(p) => {
                    let press = key_of(events[p])->0;
                    if press.kind == TermKeyKind::Press && press.code == release.code {
                        Some(p - start)
                    } else {
                        None
                    }
                },
                None => None,
            }
        } else {
            None
        },
        None => None,
    }
}

/// Whether `event` is a key event.
fn key_event(event: &TermEvent) -> (k: Option<TermKeyEvent>)
    ensures
        k == key_of(*event),
{
    match event {
        TermEvent::Key(key) => Some(*key),
        _ => None,
    }
}

/// The press offset of an autorepeat pair starting at `events[start]`;
/// see [`pair_spec`].
fn pair_at(events: &[TermEvent], start: usize) -> (r: Option<usize>)
    requires
        start < events@.len(),
    ensures
        r matches Some(p) ==> pair_spec(events@, start as int) == Some(p as int),
        r is None ==> pair_spec(events@, start as int) is None,
{
    let release = match key_event(&events[start]) {
        Some(key) => key,
        None => return None,
    };
    if release.kind != TermKeyKind::Release {
        return None;
    }
    let mut p = start + 1;
    while p < events.len()
        invariant
            start < p <= events@.len(),
            key_of(events@[start as int]) == Some(release),
            release.kind == TermKeyKind::Release,
            first_key_from(events@, start as int + 1) == first_key_from(events@, p as int),
        decreases events@.len() - p,
    {
        match key_event(&events[p]) {
            Some(press) => {
                if press.kind == TermKeyKind::Press && press.code == release.code {
                    return Some(p - start);
                } else {
                    return None;
                }
            },
            None => {},
        }
        p = p + 1;
    }
    None
}

/// Where the press sits that makes `events[0]` an autorepeat's release:
/// `events[0]` is a key release and the next key event is a press of the
/// same key. A terminal that reports releases but not repeats encodes a
/// held key this way.
pub fn autorepeat_press_at(events: &[TermEvent]) -> (r: Option<usize>)
    ensures
        r matches Some(p) ==> events@.len() > 0 && pair_spec(events@, 0) == Some(p as int),
        r is None ==> events@.len() == 0 || pair_spec(events@, 0) is None,
{
    if events.len() == 0 {
        return None;
    }
    pair_at(events, 0)
}

/// The message a terminal event forwards as: keys the contract does not
/// name forward nothing.
pub open spec fn message_spec(event: TermEvent, message: Option<InputMessage>) -> bool {
    match event {
        TermEvent::Key(key) => match key_spec(key) {
            Some(m) => message == Some(InputMessage::Key(m)),
            None => message is None,
        },
        TermEvent::Mouse(mouse) => message == Some(InputMessage::Mouse(mouse_spec(mouse))),
        TermEvent::Paste(text) => message matches Some(InputMessage::Paste(PasteMessage(t)))
            && t@ == text@,
        TermEvent::FocusGained => message == Some(InputMessage::Focus(FocusMessage { gained: true })),
        TermEvent::FocusLost => message == Some(InputMessage::Focus(FocusMessage { gained: false })),
        TermEvent::Resize(cols, rows) => message == Some(
            InputMessage::Resize(TerminalResized { cols, rows }),
        ),
    }
}

/// The message a terminal event forwards as; see [`message_spec`].
pub fn forward_event(event: &TermEvent) -> (message: Option<InputMessage>)
    ensures
        message_spec(*event, message),
{
    match event {
        TermEvent::Key(key) => match convert_key(*key) {
            Some(m) => Some(InputMessage::Key(m)),
            None => None,
        },
        TermEvent::Mouse(mouse) => Some(InputMessage::Mouse(convert_mouse(*mouse))),
        TermEvent::Paste(text) => Some(InputMessage::Paste(PasteMessage(text.clone()))),
        TermEvent::FocusGained => Some(InputMessage::Focus(FocusMessage::new(true))),
        TermEvent::FocusLost => Some(InputMessage::Focus(FocusMessage::new(false))),
        TermEvent::Resize(cols, rows) => Some(
            InputMessage::Resize(TerminalResized::new(*cols, *rows)),
        ),
    }
}

/// Whether `event` is a key event of `kind`.
pub open spec fn is_key_of_kind(event: TermEvent, kind: TermKeyKind) -> bool {
    match key_of(event) {
        Some(k) => k.kind == kind,
        None => false,
    }
}

/// Whether a batch holds a key event the terminal itself marked as a
/// repeat.
pub open spec fn has_native_repeat(batch: Seq<TermEvent>) -> bool {
    exists|i: int| 0 <= i < batch.len() && #[trigger] is_key_of_kind(batch[i], TermKeyKind::Repeat)
}

/// What a freshly read batch teaches about the terminal: a repeat the
/// terminal reported itself proves native repeats.
pub fn classify_batch(batch: &[TermEvent], encoding: &mut RepeatEncoding)
    ensures
        *final(encoding) == if has_native_repeat(batch@) {
            RepeatEncoding::Native
        } else {
            *old(encoding)
        },
{
    let mut i: usize = 0;
    while i < batch.len()
        invariant
            i <= batch@.len(),
            *encoding == *old(encoding),
            forall|j: int| 0 <= j < i ==> !#[trigger] is_key_of_kind(batch@[j], TermKeyKind::Repeat),
        decreases batch@.len() - i,
    {
        if let Some(key) = key_event(&batch[i]) {
            if key.kind == TermKeyKind::Repeat {
                *encoding = RepeatEncoding::Native;
                proof {
                    assert(is_key_of_kind(batch@[i as int], TermKeyKind::Repeat));
                }
                return;
            }
        }
        i = i + 1;
    }
}

/// Whether the batch should wait briefly for one more event: only on a
/// terminal proven to pair, and only when the batch ends on a key release
/// whose press may still be on its way.
pub open spec fn awaits_trailing_spec(encoding: RepeatEncoding, batch: Seq<TermEvent>) -> bool {
    &&& encoding == RepeatEncoding::Paired
    &&& batch.len() > 0
    &&& is_key_of_kind(batch.last(), TermKeyKind::Release)
}

/// Whether the batch should wait briefly for one more event; see
/// [`awaits_trailing_spec`].
pub fn awaits_trailing_press(encoding: RepeatEncoding, batch: &[TermEvent]) -> (b: bool)
    ensures
        b == awaits_trailing_spec(encoding, batch@),
{
    if encoding != RepeatEncoding::Paired || batch.len() == 0 {
        return false;
    }
    match key_event(&batch[batch.len() - 1]) {
        Some(key) => key.kind == TermKeyKind::Release,
        None => false,
    }
}

/// `event` with its key kind turned into a repeat.
pub open spec fn as_repeat(event: TermEvent) -> TermEvent {
    match event {
        TermEvent::Key(key) => TermEvent::Key(TermKeyEvent { kind: TermKeyKind::Repeat, ..key }),
        other => other,
    }
}

/// One step of forwarding a batch at `index`, given the batch and encoding
/// so far: an autorepeat pair (looked for unless repeats are native) turns
/// its press into a repeat, marks the terminal as pairing, and forwards
/// nothing; any other event forwards its message.
pub open spec fn forward_step(batch: Seq<TermEvent>, encoding: RepeatEncoding, index: int) -> (
    Seq<TermEvent>,
    RepeatEncoding,
    bool,
) {
    if encoding != RepeatEncoding::Native && pair_spec(batch, index) is Some {
        let at = index + pair_spec(batch, index)->0;
        (batch.update(at, as_repeat(batch[at])), RepeatEncoding::Paired, false)
    } else {
        (batch, encoding, true)
    }
}

/// The batch and encoding after forwarding the first `n` events, and which
/// of those forwarded their message.
pub open spec fn forward_state(batch: Seq<TermEvent>, encoding: RepeatEncoding, n: int) -> (
    Seq<TermEvent>,
    RepeatEncoding,
    Seq<bool>,
)
    decreases n,
{
    if n <= 0 {
        (batch, encoding, Seq::empty())
    } else {
        let (b, e, sent) = forward_state(batch, encoding, n - 1);
        let (b2, e2, forwards) = forward_step(b, e, n - 1);
        (b2, e2, sent.push(forwards))
    }
}

/// Whether forwarding `event` produces a message.
pub open spec fn forward_message_some(event: TermEvent) -> bool {
    match event {
        TermEvent::Key(key) => key_spec(key) is Some,
        _ => true,
    }
}

/// The indices, in order, of the events among the first `n` of `batch`
/// that were forwarded and produce a message.
pub open spec fn emitting(batch: Seq<TermEvent>, sent: Seq<bool>, n: int) -> Seq<int>
    decreases n,
{
    if n <= 0 {
        Seq::empty()
    } else {
        let prev = emitting(batch, sent, n - 1);
        if sent[n - 1] && forward_message_some(batch[n - 1]) {
            prev.push(n - 1)
        } else {
            prev
        }
    }
}

/// Which events get forwarded depends only on the events up to there.
proof fn lemma_emitting_prefix(b1: Seq<TermEvent>, b2: Seq<TermEvent>, s1: Seq<bool>, s2: Seq<bool>, n: int)
    requires
        0 <= n <= b1.len(),
        0 <= n <= b2.len(),
        n <= s1.len(),
        n <= s2.len(),
        forall|i: int| 0 <= i < n ==> b1[i] == b2[i] && s1[i] == s2[i],
    ensures
        emitting(b1, s1, n) == emitting(b2, s2, n),
        forall|k: int| 0 <= k < emitting(b1, s1, n).len() ==> 0 <= #[trigger] emitting(b1, s1, n)[k] < n,
    decreases n,
{
    if n > 0 {
        lemma_emitting_prefix(b1, b2, s1, s2, n - 1);
    }
}

/// A pair found at `index` puts its press after `index`.
proof fn lemma_pair_after(batch: Seq<TermEvent>, index: int)
    requires
        0 <= index < batch.len(),
        pair_spec(batch, index) is Some,
    ensures
        index < index + pair_spec(batch, index)->0 < batch.len(),
{
    lemma_first_key_from_range(batch, index + 1);
}

proof fn lemma_first_key_from_range(events: Seq<TermEvent>, from: int)
    ensures
        first_key_from(events, from) matches Some(p) ==> 0 <= from <= p < events.len() && key_of(
            events[p],
        ) is Some,
    decreases events.len() - from,
{
    if 0 <= from < events.len() && key_of(events[from]) is None {
        lemma_first_key_from_range(events, from + 1);
    }
}

/// A batch's events forwarded in order, with autorepeat pairs recognized.
///
/// Unless the terminal is known to report repeats itself, a key release
/// followed (past any non-key events) by a press of the same key is an
/// autorepeat: the release forwards nothing, the press is forwarded as a
/// repeat in its own place, and the terminal is marked as pairing. Every
/// other event forwards its message, in order.
pub fn forward_batch(batch: &mut Vec<TermEvent>, encoding: &mut RepeatEncoding) -> (messages: Vec<
    InputMessage,
>)
    ensures
        ({
            let (b, e, sent) = forward_state(old(batch)@, *old(encoding), old(batch)@.len() as int);
            let from = emitting(b, sent, b.len() as int);
            &&& final(batch)@ == b
            &&& *final(encoding) == e
            &&& messages@.len() == from.len()
            &&& forall|k: int|
                0 <= k < from.len() ==> message_spec(b[#[trigger] from[k]], Some(messages@[k]))
        }),
{
    let ghost batch0 = batch@;
    let ghost encoding0 = *encoding;
    let mut messages: Vec<InputMessage> = Vec::new();
    let mut index: usize = 0;
    while index < batch.len()
        invariant
            index <= batch@.len(),
            batch@.len() == batch0.len(),
            batch@ == forward_state(batch0, encoding0, index as int).0,
            *encoding == forward_state(batch0, encoding0, index as int).1,
            forward_state(batch0, encoding0, index as int).2.len() == index,
            messages@.len() == emitting(
                batch@,
                forward_state(batch0, encoding0, index as int).2,
                index as int,
            ).len(),
            forall|k: int|
                0 <= k < messages@.len() ==> message_spec(
                    batch@[#[trigger] emitting(
                        batch@,
                        forward_state(batch0, encoding0, index as int).2,
                        index as int,
                    )[k]],
                    Some(messages@[k]),
                ),
        decreases batch@.len() - index,
    {
        let ghost sent = forward_state(batch0, encoding0, index as int).2;
        let ghost before = batch@;
        let paired = if *encoding != RepeatEncoding::Native {
            pair_at(batch.as_slice(), index)
        } else {
            None
        };
        let ghost next = forward_state(batch0, encoding0, index as int + 1);
        match paired {
            Some(press_at) => {
                proof {
                    lemma_pair_after(before, index as int);
                }
                let at = index + press_at;
                if let Some(key) = key_event(&batch[at]) {
                    let repeat = TermKeyEvent { kind: TermKeyKind::Repeat, ..key };
                    batch.set(at, TermEvent::Key(repeat));
                }
                *encoding = RepeatEncoding::Paired;
                proof {
                    assert(batch@ =~= before.update(at as int, as_repeat(before[at as int])));
                    assert(next.2 == sent.push(false));
                    lemma_emitting_prefix(before, batch@, sent, next.2, index as int);
                    assert(emitting(batch@, next.2, index as int + 1) == emitting(
                        batch@,
                        next.2,
                        index as int,
                    ));
                }
            },
            None => {
                let message = forward_event(&batch[index]);
                proof {
                    assert(next.2 == sent.push(true));
                    assert(next.0 == before);
                    lemma_emitting_prefix(before, before, sent, next.2, index as int);
                }
                match message {
                    Some(m) => {
                        messages.push(m);
                    },
                    None => {},
                }
                proof {
                    let from = emitting(batch@, next.2, index as int + 1);
                    assert forall|k: int| 0 <= k < messages@.len() implies message_spec(
                        batch@[#[trigger] from[k]],
                        Some(messages@[k]),
                    ) by {
                        if k < messages@.len() - 1 || message is None {
                            assert(from[k] == emitting(before, sent, index as int)[k]);
                        }
                    }
                }
            },
        }
        index = index + 1;
    }
    messages
}

/// Every named terminal key converts to the key of the same name: each
/// character, function key and side-specific modifier to itself, the
/// arrows, paging and editing keys to theirs, and back-tab to tab. Keys
/// the contract does not name convert to nothing.
pub proof fn lemma_keys_keep_their_names(c: char, n: u8)
    ensures
        code_spec(TermKeyCode::Char(c)) == Some(KeyCode::Char(c)),
        code_spec(TermKeyCode::F(n)) == Some(KeyCode::F(n)),
        code_spec(TermKeyCode::Enter) == Some(KeyCode::Enter),
        code_spec(TermKeyCode::Esc) == Some(KeyCode::Esc),
        code_spec(TermKeyCode::Tab) == Some(KeyCode::Tab),
        code_spec(TermKeyCode::BackTab) == Some(KeyCode::Tab),
        code_spec(TermKeyCode::Backspace) == Some(KeyCode::Backspace),
        code_spec(TermKeyCode::Delete) == Some(KeyCode::Delete),
        code_spec(TermKeyCode::Insert) == Some(KeyCode::Insert),
        code_spec(TermKeyCode::Up) == Some(KeyCode::Up),
        code_spec(TermKeyCode::Down) == Some(KeyCode::Down),
        code_spec(TermKeyCode::Left) == Some(KeyCode::Left),
        code_spec(TermKeyCode::Right) == Some(KeyCode::Right),
        code_spec(TermKeyCode::Home) == Some(KeyCode::Home),
        code_spec(TermKeyCode::End) == Some(KeyCode::End),
        code_spec(TermKeyCode::PageUp) == Some(KeyCode::PageUp),
        code_spec(TermKeyCode::PageDown) == Some(KeyCode::PageDown),
        code_spec(TermKeyCode::CapsLock) == Some(KeyCode::CapsLock),
        code_spec(TermKeyCode::NumLock) == Some(KeyCode::NumLock),
        code_spec(TermKeyCode::ScrollLock) == Some(KeyCode::ScrollLock),
        code_spec(TermKeyCode::Modifier(TermModifierKey::LeftShift)) == Some(
            KeyCode::Modifier(ModifierKey::ShiftLeft),
        ),
        code_spec(TermKeyCode::Modifier(TermModifierKey::RightShift)) == Some(
            KeyCode::Modifier(ModifierKey::ShiftRight),
        ),
        code_spec(TermKeyCode::Modifier(TermModifierKey::LeftControl)) == Some(
            KeyCode::Modifier(ModifierKey::ControlLeft),
        ),
        code_spec(TermKeyCode::Modifier(TermModifierKey::RightControl)) == Some(
            KeyCode::Modifier(ModifierKey::ControlRight),
        ),
        code_spec(TermKeyCode::Modifier(TermModifierKey::LeftAlt)) == Some(
            KeyCode::Modifier(ModifierKey::AltLeft),
        ),
        code_spec(TermKeyCode::Modifier(TermModifierKey::RightAlt)) == Some(
            KeyCode::Modifier(ModifierKey::AltRight),
        ),
        code_spec(TermKeyCode::Modifier(TermModifierKey::LeftSuper)) == Some(
            KeyCode::Modifier(ModifierKey::SuperLeft),
        ),
        code_spec(TermKeyCode::Modifier(TermModifierKey::RightSuper)) == Some(
            KeyCode::Modifier(ModifierKey::SuperRight),
        ),
        code_spec(TermKeyCode::Modifier(TermModifierKey::LeftHyper)) == Some(
            KeyCode::Modifier(ModifierKey::HyperLeft),
        ),
        code_spec(TermKeyCode::Modifier(TermModifierKey::RightHyper)) == Some(
            KeyCode::Modifier(ModifierKey::HyperRight),
        ),
        code_spec(TermKeyCode::Modifier(TermModifierKey::LeftMeta)) == Some(
            KeyCode::Modifier(ModifierKey::MetaLeft),
        ),
        code_spec(TermKeyCode::Modifier(TermModifierKey::RightMeta)) == Some(
            KeyCode::Modifier(ModifierKey::MetaRight),
        ),
        code_spec(TermKeyCode::Modifier(TermModifierKey::IsoLevel3Shift)) is None,
        code_spec(TermKeyCode::Modifier(TermModifierKey::IsoLevel5Shift)) is None,
        code_spec(TermKeyCode::Null) is None,
        code_spec(TermKeyCode::PrintScreen) is None,
        code_spec(TermKeyCode::Pause) is None,
        code_spec(TermKeyCode::Menu) is None,
        code_spec(TermKeyCode::KeypadBegin) is None,
        code_spec(TermKeyCode::Media) is None,
{
}

/// Terminal key kinds, mouse buttons and mouse actions convert to the ones
/// of the same name, and a mouse event lands on the cell it names.
pub proof fn lemma_kinds_and_buttons_keep_their_names(
    b: TermMouseButton,
    column: u16,
    row: u16,
    modifiers: TermModifiers,
    kind: TermMouseKind,
)
    ensures
        kind_spec(TermKeyKind::Press) == KeyKind::Press,
        kind_spec(TermKeyKind::Repeat) == KeyKind::Repeat,
        kind_spec(TermKeyKind::Release) == KeyKind::Release,
        button_spec(TermMouseButton::Left) == MouseButton::Left,
        button_spec(TermMouseButton::Right) == MouseButton::Right,
        button_spec(TermMouseButton::Middle) == MouseButton::Middle,
        mouse_kind_spec(TermMouseKind::Down(b)) == MouseKind::Down(button_spec(b)),
        mouse_kind_spec(TermMouseKind::Up(b)) == MouseKind::Up(button_spec(b)),
        mouse_kind_spec(TermMouseKind::Drag(b)) == MouseKind::Drag(button_spec(b)),
        mouse_kind_spec(TermMouseKind::Moved) == MouseKind::Moved,
        mouse_kind_spec(TermMouseKind::ScrollUp) == MouseKind::ScrollUp,
        mouse_kind_spec(TermMouseKind::ScrollDown) == MouseKind::ScrollDown,
        mouse_kind_spec(TermMouseKind::ScrollLeft) == MouseKind::ScrollLeft,
        mouse_kind_spec(TermMouseKind::ScrollRight) == MouseKind::ScrollRight,
        mouse_spec((TermMouseEvent { kind, column, row, modifiers })).position == (Position {
            x: column,
            y: row,
        }),
{
}

/// The terminal's modifier flags, shift, control, alt, super, hyper and
/// meta from the lowest bit up, each set the modifier of that name.
pub proof fn lemma_modifier_flags_keep_their_names(bits: u8)
    ensures
        modifiers_spec((TermModifiers { bits })).shift == (bits & 0x01 == 0x01),
        modifiers_spec((TermModifiers { bits })).ctrl == (bits & 0x02 == 0x02),
        modifiers_spec((TermModifiers { bits })).alt == (bits & 0x04 == 0x04),
        modifiers_spec((TermModifiers { bits })).super_key == (bits & 0x08 == 0x08),
        modifiers_spec((TermModifiers { bits })).hyper == (bits & 0x10 == 0x10),
        modifiers_spec((TermModifiers { bits })).meta == (bits & 0x20 == 0x20),
{
}

} // verus!
