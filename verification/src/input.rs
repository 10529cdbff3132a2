//! The input contract: what happened at the keyboard, the mouse and the
//! terminal, in one shape whatever backend reported it.

use vstd::prelude::*;

use crate::geometry::Position;

verus! {

/// A side-specific modifier key, pressed or released on its own.
#[derive(Clone, Copy, Debug, PartialEq, Eq, Structural)]
pub enum ModifierKey {
    /// Left shift.
    ShiftLeft,
    /// Right shift.
    ShiftRight,
    /// Left control.
    ControlLeft,
    /// Right control.
    ControlRight,
    /// Left alt.
    AltLeft,
    /// Right alt.
    AltRight,
    /// Left super.
    SuperLeft,
    /// Right super.
    SuperRight,
    /// Left hyper.
    HyperLeft,
    /// Right hyper.
    HyperRight,
    /// Left meta.
    MetaLeft,
    /// Right meta.
    MetaRight,
}

/// A key, as the contract names it.
#[derive(Clone, Copy, Debug, PartialEq, Eq, Structural)]
pub enum KeyCode {
    /// A character key.
    Char(char),
    /// Enter.
    Enter,
    /// Escape.
    Esc,
    /// Tab; shift-tab is a Tab with shift held.
    Tab,
    /// Backspace.
    Backspace,
    /// Delete.
    Delete,
    /// Insert.
    Insert,
    /// Arrow up.
    Up,
    /// Arrow down.
    Down,
    /// Arrow left.
    Left,
    /// Arrow right.
    Right,
    /// Home.
    Home,
    /// End.
    End,
    /// Page up.
    PageUp,
    /// Page down.
    PageDown,
    /// A function key by number.
    F(u8),
    /// Caps lock.
    CapsLock,
    /// Num lock.
    NumLock,
    /// Scroll lock.
    ScrollLock,
    /// A modifier key on its own.
    Modifier(ModifierKey),
}

/// What a key did.
#[derive(Clone, Copy, Debug, PartialEq, Eq, Structural)]
pub enum KeyKind {
    /// Went down.
    Press,
    /// Held down long enough to repeat.
    Repeat,
    /// Came up.
    Release,
}

/// The modifiers held during an input event.
#[derive(Clone, Copy, Debug, PartialEq, Eq, Structural)]
pub struct KeyModifiers {
    /// Control.
    pub ctrl: bool,
    /// Alt.
    pub alt: bool,
    /// Shift.
    pub shift: bool,
    /// Super.
    pub super_key: bool,
    /// Hyper.
    pub hyper: bool,
    /// Meta.
    pub meta: bool,
}

impl Default for KeyModifiers {
    /// No modifier held.
    fn default() -> (m: KeyModifiers)
        ensures
            m == (KeyModifiers {
                ctrl: false,
                alt: false,
                shift: false,
                super_key: false,
                hyper: false,
                meta: false,
            }),
    {
        KeyModifiers {
            ctrl: false,
            alt: false,
            shift: false,
            super_key: false,
            hyper: false,
            meta: false,
        }
    }
}

impl KeyModifiers {
    /// Sets whether control is held.
    pub fn with_ctrl(self, ctrl: bool) -> (m: KeyModifiers)
        ensures
            m == (KeyModifiers { ctrl, ..self }),
    {
        KeyModifiers { ctrl, ..self }
    }

    /// Sets whether alt is held.
    pub fn with_alt(self, alt: bool) -> (m: KeyModifiers)
        ensures
            m == (KeyModifiers { alt, ..self }),
    {
        KeyModifiers { alt, ..self }
    }

    /// Sets whether shift is held.
    pub fn with_shift(self, shift: bool) -> (m: KeyModifiers)
        ensures
            m == (KeyModifiers { shift, ..self }),
    {
        KeyModifiers { shift, ..self }
    }

    /// Sets whether super is held.
    pub fn with_super_key(self, super_key: bool) -> (m: KeyModifiers)
        ensures
            m == (KeyModifiers { super_key, ..self }),
    {
        KeyModifiers { super_key, ..self }
    }

    /// Sets whether hyper is held.
    pub fn with_hyper(self, hyper: bool) -> (m: KeyModifiers)
        ensures
            m == (KeyModifiers { hyper, ..self }),
    {
        KeyModifiers { hyper, ..self }
    }

    /// Sets whether meta is held.
    pub fn with_meta(self, meta: bool) -> (m: KeyModifiers)
        ensures
            m == (KeyModifiers { meta, ..self }),
    {
        KeyModifiers { meta, ..self }
    }
}

/// A key event.
#[derive(Clone, Copy, Debug, PartialEq, Eq, Structural)]
pub struct KeyMessage {
    /// The key.
    pub code: KeyCode,
    /// The modifiers held.
    pub modifiers: KeyModifiers,
    /// What the key did.
    pub kind: KeyKind,
}

impl KeyMessage {
    /// A key event of `code` with `modifiers`, of `kind`.
    pub fn new(code: KeyCode, modifiers: KeyModifiers, kind: KeyKind) -> (m: KeyMessage)
        ensures
            m == (KeyMessage { code, modifiers, kind }),
    {
        KeyMessage { code, modifiers, kind }
    }
}

/// A mouse button.
#[derive(Clone, Copy, Debug, PartialEq, Eq, Structural)]
pub enum MouseButton {
    /// Left button.
    Left,
    /// Right button.
    Right,
    /// Middle button.
    Middle,
}

/// What the mouse did.
#[derive(Clone, Copy, Debug, PartialEq, Eq, Structural)]
pub enum MouseKind {
    /// A button went down.
    Down(MouseButton),
    /// A button came up.
    Up(MouseButton),
    /// The mouse moved with a button held.
    Drag(MouseButton),
    /// The mouse moved with no button held.
    Moved,
    /// The wheel turned up.
    ScrollUp,
    /// The wheel turned down.
    ScrollDown,
    /// The wheel tilted left.
    ScrollLeft,
    /// The wheel tilted right.
    ScrollRight,
}

/// A mouse event in cell coordinates.
#[derive(Clone, Copy, Debug, PartialEq, Eq, Structural)]
pub struct MouseMessage {
    /// What the mouse did.
    pub kind: MouseKind,
    /// The cell under the pointer.
    pub position: Position,
    /// The modifiers held.
    pub modifiers: KeyModifiers,
}

impl MouseMessage {
    /// A mouse event of `kind` at `position` with `modifiers`.
    pub fn new(kind: MouseKind, position: Position, modifiers: KeyModifiers) -> (m: MouseMessage)
        ensures
            m == (MouseMessage { kind, position, modifiers }),
    {
        MouseMessage { kind, position, modifiers }
    }
}

/// Text pasted into the terminal.
#[derive(Debug)]
pub struct PasteMessage(pub String);

/// The terminal gained or lost focus.
#[derive(Clone, Copy, Debug, PartialEq, Eq, Structural)]
pub struct FocusMessage {
    /// Whether focus was gained.
    pub gained: bool,
}

impl FocusMessage {
    /// Focus gained when `gained`, lost otherwise.
    pub fn new(gained: bool) -> (m: FocusMessage)
        ensures
            m.gained == gained,
    {
        FocusMessage { gained }
    }
}

/// The terminal changed size.
#[derive(Clone, Copy, Debug, PartialEq, Eq, Structural)]
pub struct TerminalResized {
    /// New width in columns.
    pub cols: u16,
    /// New height in rows.
    pub rows: u16,
}

impl TerminalResized {
    /// A resize to `cols` by `rows`.
    pub fn new(cols: u16, rows: u16) -> (m: TerminalResized)
        ensures
            m.cols == cols,
            m.rows == rows,
    {
        TerminalResized { cols, rows }
    }
}

/// Any one input message.
#[derive(Debug)]
pub enum InputMessage {
    /// A key event.
    Key(KeyMessage),
    /// A mouse event.
    Mouse(MouseMessage),
    /// Pasted text.
    Paste(PasteMessage),
    /// A focus change.
    Focus(FocusMessage),
    /// A resize.
    Resize(TerminalResized),
}

} // verus!
