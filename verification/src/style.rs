//! Cell colors and styles: the terminal palette, text modifiers, and the
//! patching rule by which one style layers over another.

use vstd::prelude::*;

verus! {

/// A terminal color: the reset color, the sixteen named ANSI colors, an
/// xterm palette index, or 24-bit RGB.
#[derive(Clone, Copy, Debug, PartialEq, Eq, Structural)]
pub enum Color {
    /// The terminal's default color.
    Reset,
    /// ANSI black.
    Black,
    /// ANSI red.
    Red,
    /// ANSI green.
    Green,
    /// ANSI yellow.
    Yellow,
    /// ANSI blue.
    Blue,
    /// ANSI magenta.
    Magenta,
    /// ANSI cyan.
    Cyan,
    /// ANSI gray (white in the low-intensity set).
    Gray,
    /// ANSI dark gray (bright black).
    DarkGray,
    /// ANSI bright red.
    LightRed,
    /// ANSI bright green.
    LightGreen,
    /// ANSI bright yellow.
    LightYellow,
    /// ANSI bright blue.
    LightBlue,
    /// ANSI bright magenta.
    LightMagenta,
    /// ANSI bright cyan.
    LightCyan,
    /// ANSI bright white.
    White,
    /// 24-bit red, green, blue.
    Rgb(u8, u8, u8),
    /// An index into the terminal's 256-color palette.
    Indexed(u8),
}

impl Default for Color {
    /// The terminal's default color.
    fn default() -> (c: Color)
        ensures
            c == Color::Reset,
    {
        Color::Reset
    }
}

/// Text attributes as bit flags: bold, dim, italic, underlined, slow and
/// rapid blink, reversed, hidden, crossed out, from the lowest bit up.
#[derive(Clone, Copy, Debug, PartialEq, Eq, Structural)]
pub struct Modifier {
    /// The flag bits.
    pub bits: u16,
}

impl Modifier {
    /// No attribute set.
    pub fn empty() -> (m: Modifier)
        ensures
            m.bits == 0,
    {
        Modifier { bits: 0 }
    }

    /// Bold text.
    pub fn bold() -> (m: Modifier)
        ensures
            m.bits == 1,
    {
        Modifier { bits: 1 }
    }

    /// Italic text.
    pub fn italic() -> (m: Modifier)
        ensures
            m.bits == 4,
    {
        Modifier { bits: 4 }
    }

    /// These flags together with `other`'s.
    pub fn union(self, other: Modifier) -> (m: Modifier)
        ensures
            m.bits == self.bits | other.bits,
    {
        Modifier { bits: self.bits | other.bits }
    }

    /// These flags without any of `other`'s.
    pub fn difference(self, other: Modifier) -> (m: Modifier)
        ensures
            m.bits == self.bits & !other.bits,
    {
        Modifier { bits: self.bits & !other.bits }
    }
}

/// A style: optional colors and the modifiers it adds and removes. `None`
/// colors leave whatever is underneath in place.
#[derive(Clone, Copy, Debug, PartialEq, Eq, Structural)]
pub struct Style {
    /// Foreground color, if set.
    pub fg: Option<Color>,
    /// Background color, if set.
    pub bg: Option<Color>,
    /// Underline color, if set.
    pub underline_color: Option<Color>,
    /// Modifiers this style turns on.
    pub add_modifier: Modifier,
    /// Modifiers this style turns off.
    pub sub_modifier: Modifier,
}

/// `over`, falling back to `under` when it is `None`.
pub open spec fn or_else(over: Option<Color>, under: Option<Color>) -> Option<Color> {
    match over {
        Some(c) => Some(c),
        None => under,
    }
}

impl Style {
    /// The style that changes nothing.
    pub open spec fn plain() -> Style {
        Style {
            fg: None,
            bg: None,
            underline_color: None,
            add_modifier: Modifier { bits: 0 },
            sub_modifier: Modifier { bits: 0 },
        }
    }

    /// `other` layered over `self`: its colors win where set, its added
    /// modifiers are added and its removed modifiers removed.
    pub open spec fn patch_spec(self, other: Style) -> Style {
        Style {
            fg: or_else(other.fg, self.fg),
            bg: or_else(other.bg, self.bg),
            underline_color: or_else(other.underline_color, self.underline_color),
            add_modifier: Modifier {
                bits: (self.add_modifier.bits & !other.sub_modifier.bits) | other.add_modifier.bits,
            },
            sub_modifier: Modifier {
                bits: (self.sub_modifier.bits & !other.add_modifier.bits) | other.sub_modifier.bits,
            },
        }
    }

    /// The style that changes nothing.
    pub fn new() -> (s: Style)
        ensures
            s == Style::plain(),
    {
        Style {
            fg: None,
            bg: None,
            underline_color: None,
            add_modifier: Modifier::empty(),
            sub_modifier: Modifier::empty(),
        }
    }

    /// This style with foreground `color`.
    pub fn fg(self, color: Color) -> (s: Style)
        ensures
            s == (Style { fg: Some(color), ..self }),
    {
        Style { fg: Some(color), ..self }
    }

    /// This style with background `color`.
    pub fn bg(self, color: Color) -> (s: Style)
        ensures
            s == (Style { bg: Some(color), ..self }),
    {
        Style { bg: Some(color), ..self }
    }

    /// This style also adding `modifier`.
    pub fn add_modifier(self, modifier: Modifier) -> (s: Style)
        ensures
            s == (Style {
                add_modifier: Modifier { bits: self.add_modifier.bits | modifier.bits },
                sub_modifier: Modifier { bits: self.sub_modifier.bits & !modifier.bits },
                ..self
            }),
    {
        Style {
            add_modifier: self.add_modifier.union(modifier),
            sub_modifier: self.sub_modifier.difference(modifier),
            ..self
        }
    }

    /// `other` layered over this style.
    pub fn patch(self, other: Style) -> (s: Style)
        ensures
            s == self.patch_spec(other),
    {
        let fg = match other.fg {
            Some(c) => Some(c),
            None => self.fg,
        };
        let bg = match other.bg {
            Some(c) => Some(c),
            None => self.bg,
        };
        let underline_color = match other.underline_color {
            Some(c) => Some(c),
            None => self.underline_color,
        };
        Style {
            fg,
            bg,
            underline_color,
            add_modifier: self.add_modifier.difference(other.sub_modifier).union(
                other.add_modifier,
            ),
            sub_modifier: self.sub_modifier.difference(other.add_modifier).union(
                other.sub_modifier,
            ),
        }
    }
}

impl Default for Style {
    /// The style that changes nothing.
    fn default() -> (s: Style)
        ensures
            s == Style::plain(),
    {
        Style::new()
    }
}

/// Patching with the plain style, on either side, changes nothing.
pub proof fn lemma_patch_identity(s: Style)
    ensures
        s.patch_spec(Style::plain()) == s,
        Style::plain().patch_spec(s) == s,
{
    let a = s.add_modifier.bits;
    let b = s.sub_modifier.bits;
    assert((a & !0u16) | 0u16 == a) by (bit_vector);
    assert((b & !0u16) | 0u16 == b) by (bit_vector);
    assert((0u16 & !b) | a == a) by (bit_vector);
    assert((0u16 & !a) | b == b) by (bit_vector);
}

/// Layering styles one over another is associative: patching `b` then
/// `c` over `a` is patching `c`-over-`b` over `a`.
pub proof fn lemma_patch_associative(a: Style, b: Style, c: Style)
    ensures
        a.patch_spec(b).patch_spec(c) == a.patch_spec(b.patch_spec(c)),
{
    let (aa, asub) = (a.add_modifier.bits, a.sub_modifier.bits);
    let (ba, bs) = (b.add_modifier.bits, b.sub_modifier.bits);
    let (ca, cs) = (c.add_modifier.bits, c.sub_modifier.bits);
    assert((((aa & !bs) | ba) & !cs) | ca == (aa & !((bs & !ca) | cs)) | ((ba & !cs) | ca))
        by (bit_vector);
    assert((((asub & !ba) | bs) & !ca) | cs == (asub & !((ba & !cs) | ca)) | ((bs & !ca) | cs))
        by (bit_vector);
}

} // verus!
