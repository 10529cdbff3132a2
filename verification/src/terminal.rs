//! The decisions a crossterm backend makes: which color depth the
//! environment asks for, how the plugin is configured, and which terminal
//! requests reach the terminal.
//!
//! The backend owns the terminal: it enters raw mode and the alternate
//! screen, pumps events, and writes requests. What it writes, and whether,
//! is decided here on plain values.

use vstd::prelude::*;

use crate::color::ColorDepth;
use crate::strings::{contains_text, has_infix, same_str};
use vstd::utf8::encode_utf8;

verus! {

/// Chooses the color depth a terminal supports from its `COLORTERM` and
/// `TERM` values: `truecolor` or `24bit` in `COLORTERM` wins, a `TERM`
/// naming `256color` gives the 256-color palette, and anything else floors
/// at the 16 ANSI colors.
pub open spec fn color_depth_spec(colorterm: Option<Seq<char>>, term: Option<Seq<char>>) -> ColorDepth {
    if colorterm matches Some(c) && (c == "truecolor"@ || c == "24bit"@) {
        ColorDepth::TrueColor
    } else if term matches Some(t) && has_infix(t, "256color"@) {
        ColorDepth::Ansi256
    } else {
        ColorDepth::Ansi16
    }
}

/// The view of an optional string.
pub open spec fn opt_view(s: Option<&str>) -> Option<Seq<char>> {
    match s {
        Some(s) => Some(s@),
        None => None,
    }
}

/// The color depth a terminal supports, from its `COLORTERM` and `TERM`
/// values; see [`color_depth_spec`].
pub fn color_depth_from_env(colorterm: Option<&str>, term: Option<&str>) -> (d: ColorDepth)
    ensures
        d == color_depth_spec(opt_view(colorterm), opt_view(term)),
{
    if let Some(c) = colorterm {
        if same_str(c, "truecolor") || same_str(c, "24bit") {
            return ColorDepth::TrueColor;
        }
    }
    if let Some(t) = term {
        if contains_text(t, "256color") {
            return ColorDepth::Ansi256;
        }
    }
    ColorDepth::Ansi16
}

/// A terminal mode the backend turns on when it takes the terminal over.
#[derive(Clone, Copy, Debug, PartialEq, Eq, Structural)]
pub enum InputMode {
    /// The kitty keyboard protocol, reporting presses, repeats and
    /// releases.
    KittyKeyboard,
    /// Mouse capture.
    MouseCapture,
    /// Bracketed paste.
    BracketedPaste,
    /// Focus change reporting.
    FocusChange,
}

/// The modes entered, in order: the kitty protocol where the terminal
/// supports it, mouse capture and bracketed paste where asked for, and
/// focus reporting always - it reveals nothing about the user, and focus
/// messages never arrive without it.
pub open spec fn input_modes_spec(kitty: bool, mouse: bool, paste: bool) -> Seq<InputMode> {
    (if kitty {
        seq![InputMode::KittyKeyboard]
    } else {
        Seq::empty()
    }) + (if mouse {
        seq![InputMode::MouseCapture]
    } else {
        Seq::empty()
    }) + (if paste {
        seq![InputMode::BracketedPaste]
    } else {
        Seq::empty()
    }) + seq![InputMode::FocusChange]
}

/// The modes to enter; see [`input_modes_spec`].
pub fn input_modes(kitty: bool, mouse: bool, paste: bool) -> (modes: Vec<InputMode>)
    ensures
        modes@ == input_modes_spec(kitty, mouse, paste),
{
    let mut modes: Vec<InputMode> = Vec::new();
    if kitty {
        modes.push(InputMode::KittyKeyboard);
    }
    if mouse {
        modes.push(InputMode::MouseCapture);
    }
    if paste {
        modes.push(InputMode::BracketedPaste);
    }
    modes.push(InputMode::FocusChange);
    proof {
        assert(modes@ =~= input_modes_spec(kitty, mouse, paste));
    }
    modes
}

/// A step of handing the terminal back.
#[derive(Clone, Copy, Debug, PartialEq, Eq, Structural)]
pub enum RestoreStep {
    /// Pop the kitty keyboard protocol flags.
    PopKittyKeyboard,
    /// Stop mouse capture.
    DisableMouseCapture,
    /// Stop bracketed paste.
    DisableBracketedPaste,
    /// Stop focus reporting.
    DisableFocusChange,
    /// Leave the alternate screen.
    LeaveAlternateScreen,
    /// Show the cursor.
    ShowCursor,
    /// Leave raw mode.
    DisableRawMode,
}

/// The restore steps, in order. Every mode a backend can enter is turned
/// off, whether or not it was entered, since turning off a mode that is
/// off is harmless; only the kitty flags are popped just when they were
/// pushed, since popping a stack that was never pushed is not.
pub open spec fn restore_steps_spec(kitty_pushed: bool) -> Seq<RestoreStep> {
    (if kitty_pushed {
        seq![RestoreStep::PopKittyKeyboard]
    } else {
        Seq::empty()
    }) + seq![
        RestoreStep::DisableMouseCapture,
        RestoreStep::DisableBracketedPaste,
        RestoreStep::DisableFocusChange,
        RestoreStep::LeaveAlternateScreen,
        RestoreStep::ShowCursor,
        RestoreStep::DisableRawMode,
    ]
}

/// The steps that restore the terminal; see [`restore_steps_spec`].
pub fn restore_steps(kitty_pushed: bool) -> (steps: Vec<RestoreStep>)
    ensures
        steps@ == restore_steps_spec(kitty_pushed),
{
    let mut steps: Vec<RestoreStep> = Vec::new();
    if kitty_pushed {
        steps.push(RestoreStep::PopKittyKeyboard);
    }
    steps.push(RestoreStep::DisableMouseCapture);
    steps.push(RestoreStep::DisableBracketedPaste);
    steps.push(RestoreStep::DisableFocusChange);
    steps.push(RestoreStep::LeaveAlternateScreen);
    steps.push(RestoreStep::ShowCursor);
    steps.push(RestoreStep::DisableRawMode);
    proof {
        assert(steps@ =~= restore_steps_spec(kitty_pushed));
    }
    steps
}

/// The restore step that turns a mode off.
pub open spec fn undo_of(mode: InputMode) -> RestoreStep {
    match mode {
        InputMode::KittyKeyboard => RestoreStep::PopKittyKeyboard,
        InputMode::MouseCapture => RestoreStep::DisableMouseCapture,
        InputMode::BracketedPaste => RestoreStep::DisableBracketedPaste,
        InputMode::FocusChange => RestoreStep::DisableFocusChange,
    }
}

/// Every mode entered is undone: restoring after entering the modes for
/// `kitty`, `mouse` and `paste` - the kitty flags pushed exactly when
/// `kitty` - turns each of them off, whatever was asked for.
pub proof fn lemma_restore_undoes_every_mode(kitty: bool, mouse: bool, paste: bool, k: int)
    requires
        0 <= k < input_modes_spec(kitty, mouse, paste).len(),
    ensures
        restore_steps_spec(kitty).contains(undo_of(input_modes_spec(kitty, mouse, paste)[k])),
{
    let modes = input_modes_spec(kitty, mouse, paste);
    let steps = restore_steps_spec(kitty);
    let offset: int = if kitty {
        1
    } else {
        0
    };
    match modes[k] {
        InputMode::KittyKeyboard => {
            assert(steps[0] == RestoreStep::PopKittyKeyboard);
        },
        InputMode::MouseCapture => {
            assert(steps[offset] == RestoreStep::DisableMouseCapture);
        },
        InputMode::BracketedPaste => {
            assert(steps[offset + 1] == RestoreStep::DisableBracketedPaste);
        },
        InputMode::FocusChange => {
            assert(steps[offset + 2] == RestoreStep::DisableFocusChange);
        },
    }
}

/// Owns the terminal and presents composed frames through `W`.
///
/// Mouse capture, bracketed paste and color-depth detection are on by
/// default; writing the user's clipboard is off until asked for. The
/// writer is handed to the backend when the plugin is built, once.
pub struct CrosstermPlugin<W> {
    mouse: bool,
    paste: bool,
    clipboard: bool,
    detect_color_depth: bool,
    writer: Option<W>,
}

impl<W> CrosstermPlugin<W> {
    /// Whether mouse capture is on.
    pub closed spec fn mouse_spec(&self) -> bool {
        self.mouse
    }

    /// Whether bracketed paste is on.
    pub closed spec fn paste_spec(&self) -> bool {
        self.paste
    }

    /// Whether clipboard writes are allowed.
    pub closed spec fn clipboard_spec(&self) -> bool {
        self.clipboard
    }

    /// Whether the color depth is detected from the environment.
    pub closed spec fn detect_color_depth_spec(&self) -> bool {
        self.detect_color_depth
    }

    /// The writer still waiting to be handed to the backend.
    pub closed spec fn writer_spec(&self) -> Option<W> {
        self.writer
    }

    /// Presents through `writer`, which must reach the controlling
    /// terminal; mouse, paste and color detection on, clipboard off.
    pub fn with_writer(writer: W) -> (p: Self)
        ensures
            p.mouse_spec(),
            p.paste_spec(),
            !p.clipboard_spec(),
            p.detect_color_depth_spec(),
            p.writer_spec() == Some(writer),
    {
        CrosstermPlugin {
            mouse: true,
            paste: true,
            clipboard: false,
            detect_color_depth: true,
            writer: Some(writer),
        }
    }

    /// Sets mouse capture; on by default.
    pub fn mouse(self, mouse: bool) -> (p: Self)
        ensures
            p.mouse_spec() == mouse,
            p.paste_spec() == self.paste_spec(),
            p.clipboard_spec() == self.clipboard_spec(),
            p.detect_color_depth_spec() == self.detect_color_depth_spec(),
            p.writer_spec() == self.writer_spec(),
    {
        CrosstermPlugin { mouse, ..self }
    }

    /// Sets bracketed paste; on by default.
    pub fn paste(self, paste: bool) -> (p: Self)
        ensures
            p.paste_spec() == paste,
            p.mouse_spec() == self.mouse_spec(),
            p.clipboard_spec() == self.clipboard_spec(),
            p.detect_color_depth_spec() == self.detect_color_depth_spec(),
            p.writer_spec() == self.writer_spec(),
    {
        CrosstermPlugin { paste, ..self }
    }

    /// Allows clipboard writes through OSC 52; off by default, so writing
    /// someone's clipboard is a decision an app states.
    pub fn clipboard(self, clipboard: bool) -> (p: Self)
        ensures
            p.clipboard_spec() == clipboard,
            p.mouse_spec() == self.mouse_spec(),
            p.paste_spec() == self.paste_spec(),
            p.detect_color_depth_spec() == self.detect_color_depth_spec(),
            p.writer_spec() == self.writer_spec(),
    {
        CrosstermPlugin { clipboard, ..self }
    }

    /// Sets whether the color depth is detected from `COLORTERM` and
    /// `TERM`; on by default.
    pub fn detect_color_depth(self, detect: bool) -> (p: Self)
        ensures
            p.detect_color_depth_spec() == detect,
            p.mouse_spec() == self.mouse_spec(),
            p.paste_spec() == self.paste_spec(),
            p.clipboard_spec() == self.clipboard_spec(),
            p.writer_spec() == self.writer_spec(),
    {
        CrosstermPlugin { detect_color_depth: detect, ..self }
    }

    /// Whether mouse capture is on.
    pub fn mouse_enabled(&self) -> (b: bool)
        ensures
            b == self.mouse_spec(),
    {
        self.mouse
    }

    /// Whether bracketed paste is on.
    pub fn paste_enabled(&self) -> (b: bool)
        ensures
            b == self.paste_spec(),
    {
        self.paste
    }

    /// Whether clipboard writes are allowed.
    pub fn clipboard_enabled(&self) -> (b: bool)
        ensures
            b == self.clipboard_spec(),
    {
        self.clipboard
    }

    /// Whether the color depth is detected from the environment.
    pub fn detects_color_depth(&self) -> (b: bool)
        ensures
            b == self.detect_color_depth_spec(),
    {
        self.detect_color_depth
    }

    /// Hands the writer over for the backend; a plugin is built once, so
    /// the writer must still be there.
    pub fn take_writer(&mut self) -> (w: W)
        requires
            old(self).writer_spec() is Some,
        ensures
            old(self).writer_spec() == Some(w),
            final(self).writer_spec() is None,
            final(self).mouse_spec() == old(self).mouse_spec(),
            final(self).paste_spec() == old(self).paste_spec(),
            final(self).clipboard_spec() == old(self).clipboard_spec(),
            final(self).detect_color_depth_spec() == old(self).detect_color_depth_spec(),
    {
        let writer = self.writer.take();
        writer.unwrap()
    }
}

/// The UTF-8 length of `s` in bytes.
pub open spec fn byte_len(s: Seq<char>) -> int {
    encode_utf8(s).len() as int
}

/// Where a copy lands.
#[derive(Clone, Copy, Debug, PartialEq, Eq, Structural)]
pub enum ClipboardTarget {
    /// The system clipboard.
    Clipboard,
    /// The primary selection.
    Primary,
}

/// Something asked of the terminal itself rather than drawn in a cell.
#[derive(Debug)]
pub enum TerminalRequest {
    /// Writes `content` to the clipboard through OSC 52.
    CopyToClipboard {
        /// The text to copy.
        content: String,
        /// Which selection receives it.
        destination: ClipboardTarget,
    },
    /// Sets the window title.
    SetTitle(String),
}

impl TerminalRequest {
    /// A copy of `content` to the system clipboard.
    pub fn copy(content: String) -> (r: TerminalRequest)
        ensures
            r matches TerminalRequest::CopyToClipboard { content: c, destination } && c == content
                && destination == ClipboardTarget::Clipboard,
    {
        TerminalRequest::CopyToClipboard { content, destination: ClipboardTarget::Clipboard }
    }
}

/// The longest base64 payload tmux forwards; past it the sequence is
/// truncated rather than refused, so a longer copy is refused here - a
/// clipboard holding most of what was copied is worse than one holding
/// none of it.
pub const OSC52_MAX_BASE64: usize = 74994;

/// The base64 length of `bytes` bytes: three bytes encode into four, padded
/// to a multiple of four.
pub open spec fn base64_len_spec(bytes: int) -> int {
    ((bytes + 2) / 3) * 4
}

/// The base64 length of `bytes` bytes, known without paying for the
/// encoding.
pub fn base64_len(bytes: usize) -> (n: usize)
    requires
        base64_len_spec(bytes as int) <= usize::MAX,
    ensures
        n == base64_len_spec(bytes as int),
{
    let groups = bytes / 3 + if bytes % 3 == 0 {
        0
    } else {
        1
    };
    assert(groups == (bytes + 2) / 3);
    groups * 4
}

/// What becomes of a copy request.
#[derive(Clone, Copy, Debug, PartialEq, Eq, Structural)]
pub enum CopyVerdict {
    /// Clipboard writes are switched off: nothing is written.
    Disabled,
    /// The payload would be this many base64 bytes, past what survives
    /// transit: nothing is written.
    Oversized(usize),
    /// The copy is written.
    Send,
}

/// What becomes of copying `content_len` bytes with clipboard writes
/// `enabled`.
pub open spec fn copy_verdict_spec(content_len: int, enabled: bool) -> CopyVerdict {
    if !enabled {
        CopyVerdict::Disabled
    } else if base64_len_spec(content_len) > OSC52_MAX_BASE64 {
        CopyVerdict::Oversized(base64_len_spec(content_len) as usize)
    } else {
        CopyVerdict::Send
    }
}

/// What becomes of copying `content_len` bytes with clipboard writes
/// `enabled`; see [`copy_verdict_spec`].
pub fn copy_verdict(content_len: usize, enabled: bool) -> (v: CopyVerdict)
    requires
        base64_len_spec(content_len as int) <= usize::MAX,
    ensures
        v == copy_verdict_spec(content_len as int, enabled),
{
    if !enabled {
        return CopyVerdict::Disabled;
    }
    let encoded = base64_len(content_len);
    if encoded > OSC52_MAX_BASE64 {
        return CopyVerdict::Oversized(encoded);
    }
    CopyVerdict::Send
}

/// Whether a request reaches the writer: a title always does; a copy when
/// clipboard writes are enabled and its payload is small enough.
pub open spec fn request_writes(request: TerminalRequest, clipboard: bool) -> bool {
    match request {
        TerminalRequest::CopyToClipboard { content, .. } => copy_verdict_spec(
            byte_len(content@),
            clipboard,
        ) == CopyVerdict::Send,
        TerminalRequest::SetTitle(_) => true,
    }
}

/// The indices, in order, of the requests among the first `n` that reach
/// the writer.
pub open spec fn written_requests(requests: Seq<TerminalRequest>, clipboard: bool, n: int) -> Seq<
    usize,
>
    decreases n,
{
    if n <= 0 {
        Seq::empty()
    } else {
        let prev = written_requests(requests, clipboard, n - 1);
        if request_writes(requests[n - 1], clipboard) {
            prev.push((n - 1) as usize)
        } else {
            prev
        }
    }
}

/// The requests that reach the writer, by index in the order they were
/// sent; the writer is flushed once afterwards exactly when this is not
/// empty. A request the terminal cannot be asked for is dropped rather
/// than failing the frame.
pub fn serve_plan(requests: &[TerminalRequest], clipboard: bool) -> (plan: Vec<usize>)
    requires
        forall|i: int|
            0 <= i < requests@.len() ==> (#[trigger] requests@[i] matches TerminalRequest::CopyToClipboard {
                content,
                ..
            } ==> base64_len_spec(byte_len(content@)) <= usize::MAX),
    ensures
        plan@ == written_requests(requests@, clipboard, requests@.len() as int),
{
    let mut plan: Vec<usize> = Vec::new();
    let mut i: usize = 0;
    while i < requests.len()
        invariant
            i <= requests@.len(),
            forall|j: int|
                0 <= j < requests@.len() ==> (#[trigger] requests@[j] matches TerminalRequest::CopyToClipboard {
                    content,
                    ..
                } ==> base64_len_spec(byte_len(content@)) <= usize::MAX),
            plan@ == written_requests(requests@, clipboard, i as int),
        decreases requests@.len() - i,
    {
        let writes = match &requests[i] {
            TerminalRequest::CopyToClipboard { content, .. } => {
                let len = content.as_str().len();
                match copy_verdict(len, clipboard) {
                    CopyVerdict::Send => true,
                    _ => false,
                }
            },
            TerminalRequest::SetTitle(_) => true,
        };
        if writes {
            plan.push(i);
        }
        i = i + 1;
    }
    plan
}

/// The requests sent since the last frame served them, oldest first.
pub struct PendingRequests {
    requests: Vec<TerminalRequest>,
}

impl View for PendingRequests {
    type V = Seq<TerminalRequest>;

    closed spec fn view(&self) -> Seq<TerminalRequest> {
        self.requests@
    }
}

impl PendingRequests {
    /// No request waiting.
    pub fn new() -> (p: PendingRequests)
        ensures
            p@ == Seq::<TerminalRequest>::empty(),
    {
        PendingRequests { requests: Vec::new() }
    }

    /// Queues the requests sent during a frame behind those already
    /// waiting, in the order they were sent.
    pub fn extend(&mut self, sent: Vec<TerminalRequest>)
        ensures
            final(self)@ == old(self)@ + sent@,
    {
        let mut sent = sent;
        self.requests.append(&mut sent);
    }

    /// Hands every waiting request to the frame that serves them, in the
    /// order they were sent, and forgets them: a served request is never
    /// handed out again, so a frame with nothing new sent serves nothing.
    pub fn take(&mut self) -> (taken: Vec<TerminalRequest>)
        ensures
            taken@ == old(self)@,
            final(self)@ == Seq::<TerminalRequest>::empty(),
    {
        let mut taken: Vec<TerminalRequest> = Vec::new();
        core::mem::swap(&mut taken, &mut self.requests);
        taken
    }
}

} // verus!
