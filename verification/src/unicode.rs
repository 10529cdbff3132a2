//! Character properties the cell pipeline measures text by: display width
//! (`unicode-width`), grapheme clusters (`unicode-segmentation`), and the
//! `char` classifications std offers.

use vstd::prelude::*;

use unicode_segmentation::UnicodeSegmentation;
use unicode_width::{UnicodeWidthChar, UnicodeWidthStr};

verus! {

/// The display width `unicode-width` assigns to a character; `None` for a
/// control character.
pub uninterp spec fn unicode_char_width(c: char) -> Option<usize>;

/// The display width `unicode-width` assigns to a string.
pub uninterp spec fn unicode_str_width(s: Seq<char>) -> usize;

/// The extended grapheme clusters `unicode-segmentation` splits a string
/// into, in order.
pub uninterp spec fn unicode_graphemes(s: Seq<char>) -> Seq<Seq<char>>;

/// Whether std's `char::is_uppercase` holds of a character.
pub uninterp spec fn unicode_uppercase(c: char) -> bool;

/// The characters with the Unicode `White_Space` property.
pub open spec fn white_space(c: char) -> bool {
    ||| '\u{9}' <= c <= '\u{d}'
    ||| c == ' '
    ||| c == '\u{85}'
    ||| c == '\u{a0}'
    ||| c == '\u{1680}'
    ||| '\u{2000}' <= c <= '\u{200a}'
    ||| c == '\u{2028}'
    ||| c == '\u{2029}'
    ||| c == '\u{202f}'
    ||| c == '\u{205f}'
    ||| c == '\u{3000}'
}

/// The characters in the Unicode general category `Cc`.
pub open spec fn control_char(c: char) -> bool {
    ||| c <= '\u{1f}'
    ||| '\u{7f}' <= c <= '\u{9f}'
}

/// A character's display width, zero for a control character.
pub open spec fn cell_width(c: char) -> nat {
    match unicode_char_width(c) {
        Some(w) => w as nat,
        None => 0,
    }
}

/// The display width of `c` in terminal columns, or `None` for a control
/// character.
///
/// Trusted: calls `unicode_width::UnicodeWidthChar::width`. The contract
/// names its result and states what the crate's source shows of it: printable
/// ASCII is one column wide, C0 and C1 control codes have no width, and no
/// character is wider than three columns (the widest table entry).
#[verifier::external_body]
pub(crate) fn char_width(c: char) -> (w: Option<usize>)
    ensures
        w == unicode_char_width(c),
        w matches Some(n) ==> n <= 3,
        ' ' <= c <= '~' ==> w == Some(1usize),
        c < ' ' || ('\u{7f}' <= c < '\u{a0}') ==> w is None,
{
    UnicodeWidthChar::width(c)
}

/// The display width of `s` in terminal columns.
///
/// Trusted: calls `unicode_width::UnicodeWidthStr::width`; the contract only
/// names the result, which depends on `s` alone.
#[verifier::external_body]
pub(crate) fn str_width(s: &str) -> (w: usize)
    ensures
        w == unicode_str_width(s@),
{
    UnicodeWidthStr::width(s)
}

/// The extended grapheme clusters of `s`, in order.
///
/// Trusted: calls `unicode_segmentation::UnicodeSegmentation::graphemes` with
/// extended clusters and copies each cluster into a `String`; the contract
/// names the sequence of clusters, which depends on `s` alone, and states
/// what the crate's iterator shows of it: each cluster is the non-empty
/// slice between two successive boundaries, so the clusters are non-empty
/// and join back into `s`.
#[verifier::external_body]
pub(crate) fn graphemes(s: &str) -> (g: Vec<String>)
    ensures
        g@.len() == unicode_graphemes(s@).len(),
        forall|i: int| 0 <= i < g@.len() ==> #[trigger] g@[i]@ == unicode_graphemes(s@)[i],
        forall|i: int| 0 <= i < g@.len() ==> (#[trigger] g@[i]@).len() > 0,
        g@.map_values(|x: String| x@).flatten() == s@,
{
    UnicodeSegmentation::graphemes(s, true).map(String::from).collect()
}

/// Whether `c` has the Unicode `White_Space` property, the same answer as
/// `char::is_whitespace`: the property is a short fixed list of code
/// points, checked here directly.
pub fn is_whitespace(c: char) -> (b: bool)
    ensures
        b == white_space(c),
{
    ('\u{9}' <= c && c <= '\u{d}') || c == ' ' || c == '\u{85}' || c == '\u{a0}' || c
        == '\u{1680}' || ('\u{2000}' <= c && c <= '\u{200a}') || c == '\u{2028}' || c
        == '\u{2029}' || c == '\u{202f}' || c == '\u{205f}' || c == '\u{3000}'
}

/// Whether `c` is a control character (general category `Cc`), the same
/// answer as `char::is_control`: `Cc` is the C0 codes and DEL through the
/// C1 codes.
pub fn is_control(c: char) -> (b: bool)
    ensures
        b == control_char(c),
{
    c <= '\u{1f}' || ('\u{7f}' <= c && c <= '\u{9f}')
}

/// Whether `c` is uppercase.
///
/// Trusted: calls `char::is_uppercase`, which std documents as the Unicode
/// `Uppercase` property. The contract names the result and states the ASCII
/// part of it: `A`-`Z` are uppercase, every other ASCII character is not.
#[verifier::external_body]
pub(crate) fn is_uppercase(c: char) -> (b: bool)
    ensures
        b == unicode_uppercase(c),
        'A' <= c <= 'Z' ==> b,
        c <= '\u{7f}' && !('A' <= c <= 'Z') ==> !b,
{
    c.is_uppercase()
}

} // verus!
