//! Fontless text for layout nodes: styled spans measured and wrapped by
//! display width, the way a terminal actually renders them.
//!
//! A [`Text`] carries styled [`TextSpan`]s that patch the node's
//! [`TextStyle`]. Wrapping is greedy by display width in cells, where a wide
//! grapheme counts as two: explicit newlines are respected, words wider than
//! the limit are hard-broken, and wrap points are free to cross span
//! boundaries.

use vstd::prelude::*;

use crate::strings::{chars_of, string_of_char};
use crate::style::Style;
use crate::unicode::{cell_width, char_width, is_whitespace, white_space};

verus! {

/// One styled run inside a [`Text`]; its style patches the node's
/// [`TextStyle`].
#[derive(Debug)]
pub struct TextSpan {
    /// The span's text content.
    pub content: String,
    /// Patch applied over the node's [`TextStyle`] for this span.
    pub style: Style,
}

impl TextSpan {
    /// A span with an explicit style patch.
    pub fn new(content: &str, style: Style) -> (s: TextSpan)
        ensures
            s.content@ == content@,
            s.style == style,
    {
        TextSpan { content: content.to_owned(), style }
    }
}

/// Text content of a layout node, measured and drawn in cells.
#[derive(Debug)]
pub struct Text(pub Vec<TextSpan>);

impl Text {
    /// Unstyled text: one span with the plain style.
    pub fn plain(content: &str) -> (t: Text)
        ensures
            t.0@.len() == 1,
            t.0@[0].content@ == content@,
            t.0@[0].style == Style::plain(),
    {
        let mut spans = Vec::new();
        spans.push(TextSpan::new(content, Style::new()));
        Text(spans)
    }
}

/// Base style applied to a node's text cells; span styles patch over it.
#[derive(Clone, Copy, Debug)]
pub struct TextStyle(pub Style);

/// A styled segment: text and the style it is drawn in.
pub type Seg = (String, Style);

/// One character and its style.
pub type StyledChar = (char, Style);

/// Every character of `s` in style `style`.
pub open spec fn spread(s: Seq<char>, style: Style) -> Seq<StyledChar> {
    s.map_values(|c: char| (c, style))
}

/// The styled characters of a segment sequence, in order.
pub open spec fn flatten(segs: Seq<Seg>) -> Seq<StyledChar>
    decreases segs.len(),
{
    if segs.len() == 0 {
        Seq::empty()
    } else {
        flatten(segs.drop_last()) + spread(segs.last().0@, segs.last().1)
    }
}

/// Segments are non-empty and no two neighbors share a style: the one
/// segmentation a styled character sequence has.
pub open spec fn normalized(segs: Seq<Seg>) -> bool {
    &&& forall|i: int| 0 <= i < segs.len() ==> (#[trigger] segs[i]).0@.len() > 0
    &&& forall|i: int, j: int|
        0 <= i && j == i + 1 && j < segs.len() ==> (#[trigger] segs[i]).1 != (#[trigger] segs[j]).1
}

/// The display width of styled characters.
pub open spec fn width_of(cs: Seq<StyledChar>) -> nat
    decreases cs.len(),
{
    if cs.len() == 0 {
        0
    } else {
        width_of(cs.drop_last()) + cell_width(cs.last().0)
    }
}

/// The lines of `cs` split at every newline character.
pub open spec fn split_lines(cs: Seq<StyledChar>) -> Seq<Seq<StyledChar>>
    decreases cs.len(),
{
    if cs.len() == 0 {
        seq![Seq::empty()]
    } else {
        let prev = split_lines(cs.drop_last());
        if cs.last().0 == '\n' {
            prev.push(Seq::empty())
        } else {
            prev.update(prev.len() - 1, prev.last().push(cs.last()))
        }
    }
}

/// The lines of `cs`: split at newlines, where a final newline ends the
/// last line rather than starting an empty one.
pub open spec fn newline_split(cs: Seq<StyledChar>) -> Seq<Seq<StyledChar>> {
    let lines = split_lines(cs);
    if lines.len() > 1 && lines.last().len() == 0 {
        lines.drop_last()
    } else {
        lines
    }
}

/// The words found so far in `cs` and the word still being read.
pub open spec fn word_scan(cs: Seq<StyledChar>) -> (Seq<Seq<StyledChar>>, Seq<StyledChar>)
    decreases cs.len(),
{
    if cs.len() == 0 {
        (Seq::empty(), Seq::empty())
    } else {
        let (words, current) = word_scan(cs.drop_last());
        let c = cs.last();
        if white_space(c.0) {
            if current.len() > 0 {
                (words.push(current), Seq::empty())
            } else {
                (words, Seq::empty())
            }
        } else {
            (words, current.push(c))
        }
    }
}

/// The words of `cs`: its maximal runs of non-whitespace characters.
pub open spec fn words_spec(cs: Seq<StyledChar>) -> Seq<Seq<StyledChar>> {
    let (words, current) = word_scan(cs);
    if current.len() > 0 {
        words.push(current)
    } else {
        words
    }
}

/// Greedy wrapping state: the lines finished so far and the line being
/// filled.
pub struct WrapState {
    /// Finished lines.
    pub out: Seq<Seq<StyledChar>>,
    /// The line being filled.
    pub line: Seq<StyledChar>,
}

/// `state` with its current line finished when it is non-empty and `extra`
/// more columns would take it past `limit`.
pub open spec fn flush_if_full(state: WrapState, extra: nat, limit: nat) -> WrapState {
    if width_of(state.line) + extra > limit && state.line.len() > 0 {
        WrapState { out: state.out.push(state.line), line: Seq::empty() }
    } else {
        state
    }
}

/// A word too wide for any line, placed character by character, starting
/// a new line whenever the next character would overflow one.
pub open spec fn break_chars(state: WrapState, cs: Seq<StyledChar>, limit: nat) -> WrapState
    decreases cs.len(),
{
    if cs.len() == 0 {
        state
    } else {
        let before = break_chars(state, cs.drop_last(), limit);
        let c = cs.last();
        let flushed = flush_if_full(before, cell_width(c.0), limit);
        WrapState { out: flushed.out, line: flushed.line.push(c) }
    }
}

/// `line` followed by a space in its last character's style; unchanged
/// when empty.
pub open spec fn spaced(line: Seq<StyledChar>) -> Seq<StyledChar> {
    if line.len() > 0 {
        line.push((' ', line.last().1))
    } else {
        line
    }
}

/// One word placed greedily: on the current line, space-separated, when it
/// fits; on a new line otherwise; broken across lines when wider than any.
pub open spec fn place_word(state: WrapState, word: Seq<StyledChar>, limit: nat) -> WrapState {
    let gap: nat = if state.line.len() > 0 {
        1
    } else {
        0
    };
    let flushed = flush_if_full(state, width_of(word) + gap, limit);
    if width_of(word) > limit {
        break_chars(flushed, word, limit)
    } else {
        WrapState { out: flushed.out, line: spaced(flushed.line) + word }
    }
}

/// Words placed greedily, first to last.
pub open spec fn place_words(state: WrapState, words: Seq<Seq<StyledChar>>, limit: nat) -> WrapState
    decreases words.len(),
{
    if words.len() == 0 {
        state
    } else {
        place_word(place_words(state, words.drop_last(), limit), words.last(), limit)
    }
}

/// The lines greedy wrapping makes of `words` at `limit` columns.
pub open spec fn wrap_words(words: Seq<Seq<StyledChar>>, limit: nat) -> Seq<Seq<StyledChar>> {
    let state = place_words(WrapState { out: Seq::empty(), line: Seq::empty() }, words, limit);
    state.out.push(state.line)
}

/// Every line wrapped at `limit`, the results in order.
pub open spec fn wrap_all(lines: Seq<Seq<StyledChar>>, limit: nat) -> Seq<Seq<StyledChar>>
    decreases lines.len(),
{
    if lines.len() == 0 {
        Seq::empty()
    } else {
        wrap_all(lines.drop_last(), limit) + wrap_words(words_spec(lines.last()), limit)
    }
}

/// The lines `wrap_spans` makes of styled characters: newline-split, then,
/// given a limit, greedily word-wrapped at no fewer than one column.
pub open spec fn wrap_spec(cs: Seq<StyledChar>, limit: Option<usize>) -> Seq<Seq<StyledChar>> {
    let lines = newline_split(cs);
    match limit {
        None => lines,
        Some(l) => {
            let wrapped = wrap_all(lines, if l >= 1 {
                l as nat
            } else {
                1
            });
            if wrapped.len() == 0 {
                seq![Seq::empty()]
            } else {
                wrapped
            }
        },
    }
}

/// The lines of segments `lines` spell out `expected`, each normalized.
pub open spec fn lines_match(lines: Seq<Vec<Seg>>, expected: Seq<Seq<StyledChar>>) -> bool {
    &&& lines.len() == expected.len()
    &&& forall|k: int|
        0 <= k < lines.len() ==> normalized((#[trigger] lines[k])@) && flatten(lines[k]@)
            == expected[k]
}

/// Each segment's characters and style.
pub open spec fn views_of(segs: Seq<Seg>) -> Seq<(Seq<char>, Style)> {
    segs.map_values(|s: Seg| (s.0@, s.1))
}

/// The styled characters of non-empty segments end in the last
/// segment's style, and there are at least as many as it has.
proof fn lemma_flatten_last(segs: Seq<Seg>)
    requires
        segs.len() > 0,
        normalized(segs),
    ensures
        flatten(segs).len() >= segs.last().0@.len() > 0,
        flatten(segs).last().1 == segs.last().1,
{
    assert(segs[segs.len() - 1].0@.len() > 0);
}

/// Dropping the last segment keeps a segmentation normalized.
proof fn lemma_normalized_drop_last(segs: Seq<Seg>)
    requires
        segs.len() > 0,
        normalized(segs),
    ensures
        normalized(segs.drop_last()),
{
    let d = segs.drop_last();
    assert forall|i: int| 0 <= i < d.len() implies (#[trigger] d[i]).0@.len() > 0 by {
        assert(d[i] == segs[i]);
    }
    assert forall|i: int, j: int| 0 <= i && j == i + 1 && j < d.len() implies (#[trigger] d[i]).1 != (
    #[trigger] d[j]).1 by {
        assert(d[i] == segs[i] && d[j] == segs[j]);
    }
}

/// When the last segment of `a` is shorter than that of `b` while both
/// spell the same characters, `a`'s second-to-last segment would share
/// its last segment's style: impossible for a normalized segmentation.
proof fn lemma_last_segments_agree(a: Seq<Seg>, b: Seq<Seg>)
    requires
        a.len() > 0,
        b.len() > 0,
        normalized(a),
        normalized(b),
        flatten(a) == flatten(b),
        a.last().1 == b.last().1,
    ensures
        a.last().0@.len() >= b.last().0@.len(),
{
    let (la, lb) = (a.last(), b.last());
    let (da, db) = (a.drop_last(), b.drop_last());
    let f = flatten(a);
    assert(f == flatten(da) + spread(la.0@, la.1));
    assert(flatten(b) == flatten(db) + spread(lb.0@, lb.1));
    if la.0@.len() < lb.0@.len() {
        if da.len() == 0 {
            assert(flatten(da).len() == 0);
            lemma_flatten_last(b);
            assert(false);
        } else {
            lemma_normalized_drop_last(a);
            lemma_flatten_last(da);
            let p = flatten(da).len() - 1;
            assert(f[p] == flatten(da)[p]);
            assert(p >= flatten(db).len());
            assert(f[p] == spread(lb.0@, lb.1)[p - flatten(db).len()]);
            assert(da.last() == a[a.len() - 2]);
            assert(a[a.len() - 2].1 != a[a.len() - 1].1);
            assert(false);
        }
    }
}

/// A styled character sequence has one normalized segmentation: two
/// normalized segment sequences that spell the same styled characters
/// have the same segments.
pub proof fn lemma_normalized_unique(a: Seq<Seg>, b: Seq<Seg>)
    requires
        normalized(a),
        normalized(b),
        flatten(a) == flatten(b),
    ensures
        views_of(a) == views_of(b),
    decreases a.len() + b.len(),
{
    if a.len() == 0 || b.len() == 0 {
        if a.len() > 0 {
            lemma_flatten_last(a);
        }
        if b.len() > 0 {
            lemma_flatten_last(b);
        }
        assert(views_of(a) =~= views_of(b));
    } else {
        let (la, lb) = (a.last(), b.last());
        let (da, db) = (a.drop_last(), b.drop_last());
        let f = flatten(a);
        assert(f == flatten(da) + spread(la.0@, la.1));
        assert(flatten(b) == flatten(db) + spread(lb.0@, lb.1));
        lemma_flatten_last(a);
        lemma_flatten_last(b);
        assert(la.1 == lb.1);
        lemma_last_segments_agree(a, b);
        lemma_last_segments_agree(b, a);
        let n = la.0@.len();
        assert(flatten(da) =~= f.subrange(0, f.len() - n));
        assert(flatten(db) =~= f.subrange(0, f.len() - n));
        assert forall|i: int| 0 <= i < n implies la.0@[i] == lb.0@[i] by {
            assert(f[flatten(da).len() + i] == spread(la.0@, la.1)[i]);
            assert(f[flatten(db).len() + i] == spread(lb.0@, lb.1)[i]);
        }
        assert(la.0@ =~= lb.0@);
        lemma_normalized_drop_last(a);
        lemma_normalized_drop_last(b);
        lemma_normalized_unique(da, db);
        assert(views_of(a) =~= views_of(da).push((la.0@, la.1)));
        assert(views_of(b) =~= views_of(db).push((lb.0@, lb.1)));
    }
}

proof fn lemma_flatten_push(segs: Seq<Seg>, s: Seg)
    ensures
        flatten(segs.push(s)) == flatten(segs) + spread(s.0@, s.1),
{
    assert(segs.push(s).drop_last() =~= segs);
}

proof fn lemma_spread_push(s: Seq<char>, c: char, style: Style)
    ensures
        spread(s.push(c), style) == spread(s, style).push((c, style)),
{
    assert(spread(s.push(c), style) =~= spread(s, style).push((c, style)));
}

proof fn lemma_width_push(cs: Seq<StyledChar>, c: StyledChar)
    ensures
        width_of(cs.push(c)) == width_of(cs) + cell_width(c.0),
{
    assert(cs.push(c).drop_last() =~= cs);
}

proof fn lemma_width_concat(a: Seq<StyledChar>, b: Seq<StyledChar>)
    ensures
        width_of(a + b) == width_of(a) + width_of(b),
    decreases b.len(),
{
    if b.len() == 0 {
        assert(a + b =~= a);
    } else {
        lemma_width_concat(a, b.drop_last());
        assert((a + b).drop_last() =~= a + b.drop_last());
    }
}

} // verus!

verus! {

proof fn lemma_spread_concat(a: Seq<char>, b: Seq<char>, style: Style)
    ensures
        spread(a + b, style) == spread(a, style) + spread(b, style),
{
    assert(spread(a + b, style) =~= spread(a, style) + spread(b, style));
}

/// Appends `content` in `style` to a line of segments, extending the last
/// segment when it has the same style.
fn append_run(line: &mut Vec<Seg>, content: &str, style: Style)
    requires
        content@.len() > 0,
        normalized(old(line)@),
    ensures
        normalized(final(line)@),
        flatten(final(line)@) == flatten(old(line)@) + spread(content@, style),
{
    let n = line.len();
    if n > 0 && line[n - 1].1 == style {
        let last = line.pop().unwrap();
        let ghost rest = line@;
        let (mut text, last_style) = last;
        let ghost before_text = text@;
        crate::strings::push_str(&mut text, content);
        line.push((text, last_style));
        proof {
            assert(old(line)@ =~= rest.push(old(line)@[n - 1]));
            lemma_flatten_push(rest, old(line)@[n - 1]);
            lemma_flatten_push(rest, (text, last_style));
            lemma_spread_concat(before_text, content@, style);
            assert(line@ =~= rest.push((text, last_style)));
            assert forall|i: int| 0 <= i < line@.len() implies (#[trigger] line@[i]).0@.len() > 0 by {
                if i < n - 1 {
                    assert(line@[i] == old(line)@[i]);
                }
            }
            assert forall|i: int, j: int|
                0 <= i && j == i + 1 && j < line@.len() implies (#[trigger] line@[i]).1 != (
                #[trigger] line@[j]).1 by {
                assert(old(line)@[i] == line@[i]);
                if j < n - 1 {
                    assert(old(line)@[j] == line@[j]);
                }
            }
        }
    } else {
        let ghost before = line@;
        line.push((content.to_owned(), style));
        proof {
            lemma_flatten_push(before, line@[n as int]);
            assert forall|i: int, j: int|
                0 <= i && j == i + 1 && j < line@.len() implies (#[trigger] line@[i]).1 != (
                #[trigger] line@[j]).1 by {
                if j < n {
                    assert(old(line)@[i] == line@[i]);
                    assert(old(line)@[j] == line@[j]);
                }
            }
        }
    }
}

/// The styled characters of `segments`, in order.
fn styled_chars(segments: &[Seg]) -> (cs: Vec<StyledChar>)
    ensures
        cs@ == flatten(segments@),
{
    let mut cs: Vec<StyledChar> = Vec::new();
    let mut i: usize = 0;
    while i < segments.len()
        invariant
            i <= segments@.len(),
            cs@ == flatten(segments@.take(i as int)),
        decreases segments@.len() - i,
    {
        let chars = chars_of(segments[i].0.as_str());
        let style = segments[i].1;
        let ghost start = cs@;
        let mut j: usize = 0;
        while j < chars.len()
            invariant
                j <= chars@.len(),
                chars@ == segments@[i as int].0@,
                style == segments@[i as int].1,
                cs@ == start + spread(chars@.take(j as int), style),
            decreases chars@.len() - j,
        {
            cs.push((chars[j], style));
            proof {
                assert(chars@.take(j as int + 1) =~= chars@.take(j as int).push(chars@[j as int]));
                lemma_spread_push(chars@.take(j as int), chars@[j as int], style);
            }
            j = j + 1;
        }
        proof {
            assert(chars@.take(j as int) =~= chars@);
            assert(segments@.take(i as int + 1).drop_last() =~= segments@.take(i as int));
        }
        i = i + 1;
    }
    proof {
        assert(segments@.take(i as int) =~= segments@);
    }
    cs
}

/// The normalized segments spelling out `cs`.
fn segments_of(cs: &[StyledChar]) -> (segs: Vec<Seg>)
    ensures
        normalized(segs@),
        flatten(segs@) == cs@,
{
    let mut segs: Vec<Seg> = Vec::new();
    let mut i: usize = 0;
    while i < cs.len()
        invariant
            i <= cs@.len(),
            normalized(segs@),
            flatten(segs@) == cs@.take(i as int),
        decreases cs@.len() - i,
    {
        let (c, style) = cs[i];
        let one = string_of_char(c);
        append_run(&mut segs, one.as_str(), style);
        proof {
            assert(spread(seq![c], style) =~= seq![(c, style)]);
            assert(cs@.take(i as int + 1) =~= cs@.take(i as int).push(cs@[i as int]));
        }
        i = i + 1;
    }
    proof {
        assert(cs@.take(i as int) =~= cs@);
    }
    segs
}

proof fn lemma_normalized_length(segs: Seq<Seg>)
    requires
        normalized(segs),
    ensures
        flatten(segs).len() >= segs.len(),
    decreases segs.len(),
{
    if segs.len() > 0 {
        let rest = segs.drop_last();
        assert(normalized(rest)) by {
            assert forall|i: int| 0 <= i < rest.len() implies (#[trigger] rest[i]).0@.len() > 0 by {
                assert(rest[i] == segs[i]);
            }
            assert forall|i: int, j: int|
                0 <= i && j == i + 1 && j < rest.len() implies (#[trigger] rest[i]).1 != (
                #[trigger] rest[j]).1 by {
                assert(rest[i] == segs[i]);
                assert(rest[j] == segs[j]);
            }
        }
        lemma_normalized_length(rest);
        assert(segs[segs.len() - 1].0@.len() > 0);
    }
}

proof fn lemma_split_lines_nonempty(cs: Seq<StyledChar>)
    ensures
        split_lines(cs).len() >= 1,
    decreases cs.len(),
{
    if cs.len() > 0 {
        lemma_split_lines_nonempty(cs.drop_last());
    }
}

/// Lines split at each newline, a final newline closing the last line.
fn split_newlines(spans: &[Seg]) -> (lines: Vec<Vec<Seg>>)
    ensures
        lines_match(lines@, newline_split(flatten(spans@))),
        forall|k: int|
            0 <= k < lines@.len() ==> flatten((#[trigger] lines@[k])@).len() <= flatten(
                spans@,
            ).len(),
{
    let cs = styled_chars(spans);
    let mut lines: Vec<Vec<Seg>> = Vec::new();
    lines.push(Vec::new());
    let mut i: usize = 0;
    proof {
        assert(cs@.take(0) =~= Seq::<StyledChar>::empty());
        assert(flatten(lines@[0]@) =~= Seq::<StyledChar>::empty());
    }
    while i < cs.len()
        invariant
            i <= cs@.len(),
            lines_match(lines@, split_lines(cs@.take(i as int))),
            forall|k: int| 0 <= k < lines@.len() ==> flatten((#[trigger] lines@[k])@).len() <= i,
        decreases cs@.len() - i,
    {
        let (c, style) = cs[i];
        let ghost prev = split_lines(cs@.take(i as int));
        proof {
            lemma_split_lines_nonempty(cs@.take(i as int));
            assert(cs@.take(i as int + 1).drop_last() =~= cs@.take(i as int));
        }
        let ghost next = split_lines(cs@.take(i as int + 1));
        if c == '\n' {
            let ghost before = lines@;
            lines.push(Vec::new());
            proof {
                assert(next == prev.push(Seq::empty()));
                assert(flatten(lines@[lines@.len() - 1]@) =~= Seq::<StyledChar>::empty());
                assert forall|k: int| 0 <= k < lines@.len() implies normalized(
                    (#[trigger] lines@[k])@,
                ) && flatten(lines@[k]@) == next[k] by {
                    if k < before.len() {
                        assert(lines@[k] == before[k]);
                    }
                }
            }
        } else {
            let ghost before = lines@;
            let mut last = lines.pop().unwrap();
            let one = string_of_char(c);
            append_run(&mut last, one.as_str(), style);
            lines.push(last);
            proof {
                assert(spread(seq![c], style) =~= seq![(c, style)]);
                assert(lines@ =~= before.update(before.len() - 1, last));
                assert(next == prev.update(prev.len() - 1, prev.last().push(cs@[i as int])));
                assert forall|k: int| 0 <= k < lines@.len() implies normalized(
                    (#[trigger] lines@[k])@,
                ) && flatten(lines@[k]@) == next[k] by {
                    if k < before.len() - 1 {
                        assert(lines@[k] == before[k]);
                    }
                }
            }
        }
        i = i + 1;
    }
    proof {
        assert(cs@.take(i as int) =~= cs@);
        lemma_split_lines_nonempty(cs@);
    }
    let n = lines.len();
    let ghost full = lines@;
    if n > 1 && lines[n - 1].len() == 0 {
        lines.pop();
        proof {
            assert(flatten(full[n - 1]@) =~= Seq::<StyledChar>::empty());
            assert(lines@ =~= full.drop_last());
        }
    } else {
        proof {
            if n > 1 {
                lemma_normalized_length(full[n - 1]@);
            }
        }
    }
    lines
}


/// A styled run of characters and its display width - the accumulator
/// for both words and wrapped lines.
struct Run {
    chars: Vec<StyledChar>,
    width: usize,
}

impl Run {
    /// The width is the display width of the characters.
    spec fn wf(&self) -> bool {
        self.width == width_of(self.chars@)
    }

    fn new() -> (r: Run)
        ensures
            r.wf(),
            r.chars@.len() == 0,
    {
        Run { chars: Vec::new(), width: 0 }
    }

    fn is_empty(&self) -> (b: bool)
        ensures
            b == (self.chars@.len() == 0),
    {
        self.chars.len() == 0
    }

    fn push_char(&mut self, ch: char, style: Style)
        requires
            old(self).wf(),
            old(self).width + cell_width(ch) <= usize::MAX,
        ensures
            final(self).wf(),
            final(self).chars@ == old(self).chars@.push((ch, style)),
            final(self).width == old(self).width + cell_width(ch),
    {
        let w = match char_width(ch) {
            Some(w) => w,
            None => 0,
        };
        self.chars.push((ch, style));
        self.width = self.width + w;
        proof {
            lemma_width_push(old(self).chars@, (ch, style));
        }
    }

    fn push_space(&mut self)
        requires
            old(self).wf(),
            old(self).width + 1 <= usize::MAX,
        ensures
            final(self).wf(),
            final(self).chars@ == spaced(old(self).chars@),
            final(self).width == old(self).width + if old(self).chars@.len() > 0 {
                1int
            } else {
                0
            },
    {
        let n = self.chars.len();
        if n > 0 {
            let style = self.chars[n - 1].1;
            let w = char_width(' ');
            self.chars.push((' ', style));
            self.width = self.width + 1;
            proof {
                lemma_width_push(old(self).chars@, (' ', style));
            }
        }
    }

    fn push_word(&mut self, word: &Run)
        requires
            old(self).wf(),
            word.wf(),
            old(self).width + word.width <= usize::MAX,
        ensures
            final(self).wf(),
            final(self).chars@ == old(self).chars@ + word.chars@,
            final(self).width == old(self).width + word.width,
    {
        let mut i: usize = 0;
        let ghost start = self.chars@;
        while i < word.chars.len()
            invariant
                i <= word.chars@.len(),
                start == old(self).chars@,
                self.chars@ == start + word.chars@.take(i as int),
                self.width == old(self).width + width_of(word.chars@.take(i as int)),
                word.wf(),
                old(self).wf(),
                old(self).width + word.width <= usize::MAX,
            decreases word.chars@.len() - i,
        {
            let c = word.chars[i];
            proof {
                assert(word.chars@.take(i as int + 1) =~= word.chars@.take(i as int).push(c));
                lemma_width_push(word.chars@.take(i as int), c);
                lemma_width_concat(word.chars@.take(i as int + 1), word.chars@.skip(i as int + 1));
                assert(word.chars@.take(i as int + 1) + word.chars@.skip(i as int + 1) =~= word.chars@);
            }
            self.chars.push(c);
            let w = match char_width(c.0) {
                Some(w) => w,
                None => 0,
            };
            self.width = self.width + w;
            i = i + 1;
        }
        proof {
            assert(word.chars@.take(i as int) =~= word.chars@);
            lemma_width_concat(start, word.chars@);
        }
    }

    fn take_segments(&mut self) -> (segs: Vec<Seg>)
        requires
            old(self).wf(),
        ensures
            final(self).wf(),
            final(self).chars@.len() == 0,
            normalized(segs@),
            flatten(segs@) == old(self).chars@,
    {
        let segs = segments_of(&self.chars);
        self.chars.clear();
        self.width = 0;
        segs
    }
}

/// The characters of each run.
spec fn run_chars(runs: Seq<Run>) -> Seq<Seq<StyledChar>> {
    runs.map_values(|r: Run| r.chars@)
}

/// The words of a line of segments: maximal runs of non-whitespace.
fn split_words(line: &[Seg]) -> (words: Vec<Run>)
    requires
        flatten(line@).len() * 3 < usize::MAX,
    ensures
        run_chars(words@) == words_spec(flatten(line@)),
        forall|k: int|
            0 <= k < words@.len() ==> (#[trigger] words@[k]).wf() && words@[k].width <= 3
                * flatten(line@).len(),
{
    let cs = styled_chars(line);
    let mut words: Vec<Run> = Vec::new();
    let mut current = Run::new();
    let mut i: usize = 0;
    proof {
        assert(cs@.take(0) =~= Seq::<StyledChar>::empty());
        assert(run_chars(words@) =~= Seq::<Seq<StyledChar>>::empty());
    }
    while i < cs.len()
        invariant
            i <= cs@.len(),
            cs@ == flatten(line@),
            cs@.len() * 3 < usize::MAX,
            (run_chars(words@), current.chars@) == word_scan(cs@.take(i as int)),
            current.wf(),
            current.width <= 3 * current.chars@.len(),
            current.chars@.len() <= i,
            forall|k: int|
                0 <= k < words@.len() ==> (#[trigger] words@[k]).wf() && words@[k].width <= 3
                    * cs@.len(),
        decreases cs@.len() - i,
    {
        let (ch, style) = cs[i];
        proof {
            assert(cs@.take(i as int + 1).drop_last() =~= cs@.take(i as int));
        }
        if is_whitespace(ch) {
            if !current.is_empty() {
                let ghost before = words@;
                words.push(current);
                current = Run::new();
                proof {
                    assert(run_chars(words@) =~= run_chars(before).push(
                        words@[before.len() as int].chars@,
                    ));
                }
            }
        } else {
            let w = char_width(ch);
            current.push_char(ch, style);
        }
        i = i + 1;
    }
    if !current.is_empty() {
        let ghost before = words@;
        words.push(current);
        proof {
            assert(run_chars(words@) =~= run_chars(before).push(words@[before.len() as int].chars@));
        }
    }
    proof {
        assert(cs@.take(i as int) =~= cs@);
    }
    words
}


/// `new` is `old` with lines spelling out `lines` appended.
spec fn appended(old: Seq<Vec<Seg>>, new: Seq<Vec<Seg>>, lines: Seq<Seq<StyledChar>>) -> bool {
    &&& new.len() == old.len() + lines.len()
    &&& forall|k: int| 0 <= k < old.len() ==> #[trigger] new[k] == old[k]
    &&& forall|k: int|
        0 <= k < lines.len() ==> normalized((#[trigger] new[old.len() + k])@) && flatten(
            new[old.len() + k]@,
        ) == lines[k]
}

proof fn lemma_appended_refl(a: Seq<Vec<Seg>>)
    ensures
        appended(a, a, Seq::empty()),
{
}

proof fn lemma_appended_trans(
    a: Seq<Vec<Seg>>,
    b: Seq<Vec<Seg>>,
    c: Seq<Vec<Seg>>,
    l1: Seq<Seq<StyledChar>>,
    l2: Seq<Seq<StyledChar>>,
)
    requires
        appended(a, b, l1),
        appended(b, c, l2),
    ensures
        appended(a, c, l1 + l2),
{
    assert forall|k: int| 0 <= k < (l1 + l2).len() implies normalized(
        (#[trigger] c[a.len() + k])@,
    ) && flatten(c[a.len() + k]@) == (l1 + l2)[k] by {
        if k < l1.len() {
            assert(c[a.len() + k] == b[a.len() + k]);
        } else {
            assert(c[b.len() + (k - l1.len())] == c[a.len() + k]);
        }
    }
}

proof fn lemma_appended_push(a: Seq<Vec<Seg>>, b: Seq<Vec<Seg>>, l: Seq<Seq<StyledChar>>, v: Vec<Seg>)
    requires
        appended(a, b, l),
        normalized(v@),
    ensures
        appended(a, b.push(v), l.push(flatten(v@))),
{
    assert forall|k: int| 0 <= k < l.push(flatten(v@)).len() implies normalized(
        (#[trigger] b.push(v)[a.len() + k])@,
    ) && flatten(b.push(v)[a.len() + k]@) == l.push(flatten(v@))[k] by {
        if k < l.len() {
            assert(b.push(v)[a.len() + k] == b[a.len() + k]);
        }
    }
}

/// Breaking characters only ever appends finished lines: what it does to
/// the current line does not depend on the lines already finished.
proof fn lemma_break_frame(o: Seq<Seq<StyledChar>>, l: Seq<StyledChar>, cs: Seq<StyledChar>, limit: nat)
    ensures
        break_chars(WrapState { out: o, line: l }, cs, limit).out == o + break_chars(
            WrapState { out: Seq::empty(), line: l },
            cs,
            limit,
        ).out,
        break_chars(WrapState { out: o, line: l }, cs, limit).line == break_chars(
            WrapState { out: Seq::empty(), line: l },
            cs,
            limit,
        ).line,
    decreases cs.len(),
{
    if cs.len() == 0 {
        assert(o + Seq::<Seq<StyledChar>>::empty() =~= o);
    } else {
        lemma_break_frame(o, l, cs.drop_last(), limit);
        let e = break_chars(WrapState { out: Seq::empty(), line: l }, cs.drop_last(), limit);
        assert((o + e.out).push(e.line) =~= o + e.out.push(e.line));
    }
}

/// Places `word`'s characters one by one, starting a new line whenever the
/// next character would overflow the current one.
fn hard_break(word: &Run, limit: usize, line: &mut Run, out: &mut Vec<Vec<Seg>>)
    requires
        word.wf(),
        old(line).wf(),
    ensures
        final(line).wf(),
        ({
            let r = break_chars(
                WrapState { out: Seq::empty(), line: old(line).chars@ },
                word.chars@,
                limit as nat,
            );
            &&& appended(old(out)@, final(out)@, r.out)
            &&& final(line).chars@ == r.line
        }),
{
    let mut i: usize = 0;
    proof {
        assert(word.chars@.take(0) =~= Seq::<StyledChar>::empty());
        lemma_appended_refl(out@);
    }
    while i < word.chars.len()
        invariant
            i <= word.chars@.len(),
            word.wf(),
            line.wf(),
            ({
                let r = break_chars(
                    WrapState { out: Seq::empty(), line: old(line).chars@ },
                    word.chars@.take(i as int),
                    limit as nat,
                );
                &&& appended(old(out)@, out@, r.out)
                &&& line.chars@ == r.line
            }),
        decreases word.chars@.len() - i,
    {
        let (ch, style) = word.chars[i];
        let ghost before_out = out@;
        let ghost r = break_chars(
            WrapState { out: Seq::empty(), line: old(line).chars@ },
            word.chars@.take(i as int),
            limit as nat,
        );
        proof {
            assert(word.chars@.take(i as int + 1).drop_last() =~= word.chars@.take(i as int));
        }
        let char_width_now = match char_width(ch) {
            Some(w) => w,
            None => 0,
        };
        if (char_width_now > limit || line.width > limit - char_width_now) && !line.is_empty() {
            let segs = line.take_segments();
            out.push(segs);
            proof {
                lemma_appended_push(old(out)@, before_out, r.out, segs);
            }
        }
        line.push_char(ch, style);
        i = i + 1;
    }
    proof {
        assert(word.chars@.take(i as int) =~= word.chars@);
    }
}

/// Wraps one line's words greedily at `limit` columns, appending the lines
/// to `out`.
fn wrap_line(words: &[Run], limit: usize, out: &mut Vec<Vec<Seg>>)
    requires
        forall|k: int|
            0 <= k < words@.len() ==> (#[trigger] words@[k]).wf() && words@[k].width < usize::MAX,
    ensures
        appended(old(out)@, final(out)@, wrap_words(run_chars(words@), limit as nat)),
{
    let mut line = Run::new();
    let mut j: usize = 0;
    let ghost init = WrapState { out: Seq::empty(), line: Seq::empty() };
    proof {
        assert(run_chars(words@).take(0) =~= Seq::<Seq<StyledChar>>::empty());
        lemma_appended_refl(out@);
    }
    while j < words.len()
        invariant
            j <= words@.len(),
            forall|k: int|
                0 <= k < words@.len() ==> (#[trigger] words@[k]).wf() && words@[k].width
                    < usize::MAX,
            line.wf(),
            ({
                let st = place_words(init, run_chars(words@).take(j as int), limit as nat);
                &&& appended(old(out)@, out@, st.out)
                &&& line.chars@ == st.line
            }),
        decreases words@.len() - j,
    {
        let word = &words[j];
        let ghost st = place_words(init, run_chars(words@).take(j as int), limit as nat);
        proof {
            assert(run_chars(words@).take(j as int + 1).drop_last() =~= run_chars(words@).take(
                j as int,
            ));
            assert(run_chars(words@)[j as int] == word.chars@);
        }
        let gap: usize = if line.is_empty() {
            0
        } else {
            1
        };
        let needed = word.width + gap;
        let ghost before_out = out@;
        if (needed > limit || line.width > limit - needed) && !line.is_empty() {
            let segs = line.take_segments();
            out.push(segs);
            proof {
                lemma_appended_push(old(out)@, before_out, st.out, segs);
            }
        }
        let ghost flushed = flush_if_full(st, width_of(word.chars@) + gap as nat, limit as nat);
        proof {
            assert(appended(old(out)@, out@, flushed.out));
            assert(line.chars@ == flushed.line);
            assert(place_words(init, run_chars(words@).take(j as int + 1), limit as nat)
                == place_word(st, word.chars@, limit as nat));
        }
        if word.width > limit {
            let ghost mid_out = out@;
            let ghost mid_line = line.chars@;
            hard_break(word, limit, &mut line, out);
            proof {
                let e = break_chars(
                    WrapState { out: Seq::empty(), line: mid_line },
                    word.chars@,
                    limit as nat,
                );
                lemma_appended_trans(old(out)@, mid_out, out@, flushed.out, e.out);
                lemma_break_frame(flushed.out, flushed.line, word.chars@, limit as nat);
            }
        } else {
            line.push_space();
            line.push_word(word);
        }
        j = j + 1;
    }
    let ghost before_out = out@;
    let ghost st = place_words(init, run_chars(words@), limit as nat);
    proof {
        assert(run_chars(words@).take(j as int) =~= run_chars(words@));
    }
    let segs = line.take_segments();
    out.push(segs);
    proof {
        lemma_appended_push(old(out)@, before_out, st.out, segs);
    }
}

/// Greedy word wrap by display width over styled spans; explicit newlines
/// respected, words wider than the limit hard-broken, wrap points free to
/// cross span boundaries. Without a limit only newlines split lines.
pub fn wrap_spans(spans: &[Seg], limit: Option<usize>) -> (lines: Vec<Vec<Seg>>)
    requires
        flatten(spans@).len() * 3 < usize::MAX,
    ensures
        lines_match(lines@, wrap_spec(flatten(spans@), limit)),
        limit matches Some(l) ==> forall|k: int|
            0 <= k < lines@.len() ==> line_fits(
                flatten((#[trigger] lines@[k])@),
                if l >= 1 {
                    l as nat
                } else {
                    1
                },
            ),
        limit is Some ==> forall|k: int|
            0 <= k < lines@.len() ==> spaced_words(flatten((#[trigger] lines@[k])@)),
        solid_of(joined(line_texts(lines@))) == solid_of(flatten(spans@)),
{
    let lines = split_newlines(spans);
    proof {
        lemma_wrap_keeps_solid_chars(flatten(spans@), limit);
    }
    let limit = match limit {
        None => {
            proof {
                lemma_line_texts(lines@, wrap_spec(flatten(spans@), None));
            }
            return lines;
        },
        Some(limit) => limit,
    };
    // The gap between two words is a space, one column as unicode-width
    // measures it.
    let _space = char_width(' ');
    let ghost given = limit;
    proof {
        lemma_wrapped_lines_fit(flatten(spans@), limit);
        lemma_wrapped_lines_spaced(flatten(spans@), limit);
    }
    let limit = if limit >= 1 {
        limit
    } else {
        1
    };
    let ghost split = newline_split(flatten(spans@));
    let mut wrapped: Vec<Vec<Seg>> = Vec::new();
    let mut i: usize = 0;
    proof {
        assert(split.take(0) =~= Seq::<Seq<StyledChar>>::empty());
    }
    while i < lines.len()
        invariant
            i <= lines@.len(),
            lines_match(lines@, split),
            forall|k: int|
                0 <= k < lines@.len() ==> flatten((#[trigger] lines@[k])@).len() <= flatten(
                    spans@,
                ).len(),
            flatten(spans@).len() * 3 < usize::MAX,
            appended(Seq::empty(), wrapped@, wrap_all(split.take(i as int), limit as nat)),
        decreases lines@.len() - i,
    {
        let ghost before = wrapped@;
        let words = split_words(lines[i].as_slice());
        wrap_line(words.as_slice(), limit, &mut wrapped);
        proof {
            assert(split.take(i as int + 1).drop_last() =~= split.take(i as int));
            assert(split.take(i as int + 1).last() == split[i as int]);
            lemma_appended_trans(
                Seq::empty(),
                before,
                wrapped@,
                wrap_all(split.take(i as int), limit as nat),
                wrap_words(words_spec(split[i as int]), limit as nat),
            );
        }
        i = i + 1;
    }
    proof {
        assert(split.take(i as int) =~= split);
    }
    let ghost all = wrap_all(split, limit as nat);
    if wrapped.len() == 0 {
        wrapped.push(Vec::new());
        proof {
            assert(flatten(wrapped@[0]@) =~= Seq::<StyledChar>::empty());
            assert(all.len() == 0);
            assert(lines_match(wrapped@, seq![Seq::<StyledChar>::empty()]));
        }
    } else {
        proof {
            assert forall|k: int| 0 <= k < wrapped@.len() implies normalized(
                (#[trigger] wrapped@[k])@,
            ) && flatten(wrapped@[k]@) == all[k] by {
                assert(wrapped@[Seq::<Vec<Seg>>::empty().len() + k] == wrapped@[k]);
            }
        }
    }
    proof {
        let expected = wrap_spec(flatten(spans@), Some(given));
        assert forall|k: int| 0 <= k < wrapped@.len() implies line_fits(
            flatten((#[trigger] wrapped@[k])@),
            if given >= 1 {
                given as nat
            } else {
                1
            },
        ) by {
            assert(flatten(wrapped@[k]@) == expected[k]);
        }
    }
    proof {
        lemma_line_texts(wrapped@, wrap_spec(flatten(spans@), Some(given)));
    }
    wrapped
}

/// Span contents with `base` patched under each span's style.
pub fn resolved_spans(text: &Text, base: Style) -> (segs: Vec<Seg>)
    ensures
        segs@.len() == text.0@.len(),
        forall|k: int|
            0 <= k < segs@.len() ==> (#[trigger] segs@[k]).0@ == text.0@[k].content@ && segs@[k].1
                == base.patch_spec(text.0@[k].style),
{
    let mut segs: Vec<Seg> = Vec::new();
    let mut i: usize = 0;
    while i < text.0.len()
        invariant
            i <= text.0@.len(),
            segs@.len() == i,
            forall|k: int|
                0 <= k < i ==> (#[trigger] segs@[k]).0@ == text.0@[k].content@ && segs@[k].1
                    == base.patch_spec(text.0@[k].style),
        decreases text.0@.len() - i,
    {
        let span = &text.0[i];
        segs.push((span.content.clone(), base.patch(span.style)));
        i = i + 1;
    }
    segs
}

/// A wrapped line fits: no wider than `limit`, or a single character that
/// no line could hold.
pub open spec fn line_fits(line: Seq<StyledChar>, limit: nat) -> bool {
    width_of(line) <= limit || line.len() == 1
}

/// Every line of a wrapping state fits, finished or not.
pub open spec fn state_fits(state: WrapState, limit: nat) -> bool {
    &&& line_fits(state.line, limit)
    &&& forall|k: int| 0 <= k < state.out.len() ==> line_fits(#[trigger] state.out[k], limit)
}

proof fn lemma_flush_fits(state: WrapState, extra: nat, limit: nat)
    requires
        state_fits(state, limit),
    ensures
        state_fits(flush_if_full(state, extra, limit), limit),
{
    let f = flush_if_full(state, extra, limit);
    if width_of(state.line) + extra > limit && state.line.len() > 0 {
        assert forall|k: int| 0 <= k < f.out.len() implies line_fits(#[trigger] f.out[k], limit) by {
            if k < state.out.len() {
                assert(f.out[k] == state.out[k]);
            }
        }
    }
}

proof fn lemma_break_chars_fits(state: WrapState, cs: Seq<StyledChar>, limit: nat)
    requires
        state_fits(state, limit),
    ensures
        state_fits(break_chars(state, cs, limit), limit),
    decreases cs.len(),
{
    if cs.len() > 0 {
        lemma_break_chars_fits(state, cs.drop_last(), limit);
        let before = break_chars(state, cs.drop_last(), limit);
        let c = cs.last();
        lemma_flush_fits(before, cell_width(c.0), limit);
        let flushed = flush_if_full(before, cell_width(c.0), limit);
        lemma_width_push(flushed.line, c);
        if flushed.line.len() == 0 {
            assert(flushed.line.push(c).len() == 1);
        }
    }
}

proof fn lemma_place_word_fits(state: WrapState, word: Seq<StyledChar>, limit: nat)
    requires
        state_fits(state, limit),
        cell_width(' ') <= 1,
    ensures
        state_fits(place_word(state, word, limit), limit),
{
    let gap: nat = if state.line.len() > 0 {
        1
    } else {
        0
    };
    lemma_flush_fits(state, width_of(word) + gap, limit);
    let flushed = flush_if_full(state, width_of(word) + gap, limit);
    if width_of(word) > limit {
        lemma_break_chars_fits(flushed, word, limit);
    } else {
        lemma_width_concat(spaced(flushed.line), word);
        if flushed.line.len() > 0 {
            lemma_width_push(flushed.line, (' ', flushed.line.last().1));
            assert(flushed == state);
        } else {
            assert(spaced(flushed.line) =~= flushed.line);
        }
    }
}

proof fn lemma_place_words_fits(state: WrapState, words: Seq<Seq<StyledChar>>, limit: nat)
    requires
        state_fits(state, limit),
        cell_width(' ') <= 1,
    ensures
        state_fits(place_words(state, words, limit), limit),
    decreases words.len(),
{
    if words.len() > 0 {
        lemma_place_words_fits(state, words.drop_last(), limit);
        lemma_place_word_fits(place_words(state, words.drop_last(), limit), words.last(), limit);
    }
}

proof fn lemma_wrap_all_fits(lines: Seq<Seq<StyledChar>>, limit: nat)
    requires
        cell_width(' ') <= 1,
    ensures
        forall|k: int| 0 <= k < wrap_all(lines, limit).len() ==> line_fits(#[trigger] wrap_all(lines, limit)[k], limit),
    decreases lines.len(),
{
    if lines.len() > 0 {
        lemma_wrap_all_fits(lines.drop_last(), limit);
        let start = WrapState { out: Seq::empty(), line: Seq::empty() };
        lemma_place_words_fits(start, words_spec(lines.last()), limit);
        let prev = wrap_all(lines.drop_last(), limit);
        let state = place_words(start, words_spec(lines.last()), limit);
        let mine = state.out.push(state.line);
        assert forall|k: int| 0 <= k < wrap_all(lines, limit).len() implies line_fits(
            #[trigger] wrap_all(lines, limit)[k],
            limit,
        ) by {
            if k < prev.len() {
                assert(wrap_all(lines, limit)[k] == prev[k]);
            } else {
                assert(wrap_all(lines, limit)[k] == mine[k - prev.len()]);
                if k - prev.len() < state.out.len() {
                    assert(mine[k - prev.len()] == state.out[k - prev.len()]);
                }
            }
        }
    }
}

/// With a limit, no wrapped line is wider than the limit (at least one
/// column), unless it is a single character too wide for any line. The
/// gap between two words is a space, taken as one column wide.
pub proof fn lemma_wrapped_lines_fit(cs: Seq<StyledChar>, limit: usize)
    requires
        cell_width(' ') <= 1,
    ensures
        forall|k: int|
            0 <= k < wrap_spec(cs, Some(limit)).len() ==> line_fits(
                #[trigger] wrap_spec(cs, Some(limit))[k],
                if limit >= 1 {
                    limit as nat
                } else {
                    1
                },
            ),
{
    let l: nat = if limit >= 1 {
        limit as nat
    } else {
        1
    };
    lemma_wrap_all_fits(newline_split(cs), l);
}

/// A wrapped line's shape: its whitespace is single spaces, each between
/// two non-whitespace characters, so it neither begins nor ends with a
/// space.
pub open spec fn spaced_words(line: Seq<StyledChar>) -> bool {
    &&& (line.len() > 0 ==> !white_space(line[0].0) && !white_space(line.last().0))
    &&& single_spaces(line)
}

/// Every whitespace character of `line` is a space, and the character
/// after it is not whitespace.
pub open spec fn single_spaces(line: Seq<StyledChar>) -> bool {
    &&& forall|i: int|
        0 <= i < line.len() && white_space((#[trigger] line[i]).0) ==> line[i].0 == ' '
    &&& forall|i: int, j: int|
        #![trigger line[i], line[j]]
        0 <= i && j == i + 1 && j < line.len() && white_space(line[i].0) ==> !white_space(
            line[j].0,
        )
}

/// A word as the scanner reads it: no whitespace in it.
pub open spec fn solid(word: Seq<StyledChar>) -> bool {
    forall|i: int| 0 <= i < word.len() ==> !white_space((#[trigger] word[i]).0)
}

/// Every line of a wrapping state, finished or not, is spaced words.
pub open spec fn state_spaced(state: WrapState) -> bool {
    &&& spaced_words(state.line)
    &&& forall|k: int| 0 <= k < state.out.len() ==> spaced_words(#[trigger] state.out[k])
}

proof fn lemma_word_scan_solid(cs: Seq<StyledChar>)
    ensures
        solid(word_scan(cs).1),
        forall|k: int|
            0 <= k < word_scan(cs).0.len() ==> solid(#[trigger] word_scan(cs).0[k])
                && word_scan(cs).0[k].len() > 0,
    decreases cs.len(),
{
    if cs.len() > 0 {
        lemma_word_scan_solid(cs.drop_last());
        let (words, current) = word_scan(cs.drop_last());
        let c = cs.last();
        if !white_space(c.0) {
            assert forall|i: int| 0 <= i < current.push(c).len() implies !white_space(
                (#[trigger] current.push(c)[i]).0,
            ) by {
                if i < current.len() {
                    assert(current.push(c)[i] == current[i]);
                }
            }
        } else if current.len() > 0 {
            assert forall|k: int| 0 <= k < words.push(current).len() implies solid(
                #[trigger] words.push(current)[k],
            ) && words.push(current)[k].len() > 0 by {
                if k < words.len() {
                    assert(words.push(current)[k] == words[k]);
                }
            }
            assert(solid(Seq::<StyledChar>::empty()));
        } else {
            assert(solid(Seq::<StyledChar>::empty()));
        }
    }
}

/// The scanner's words are non-empty and hold no whitespace.
proof fn lemma_words_solid(cs: Seq<StyledChar>)
    ensures
        forall|k: int|
            0 <= k < words_spec(cs).len() ==> solid(#[trigger] words_spec(cs)[k])
                && words_spec(cs)[k].len() > 0,
{
    lemma_word_scan_solid(cs);
    let (words, current) = word_scan(cs);
    if current.len() > 0 {
        assert forall|k: int| 0 <= k < words.push(current).len() implies solid(
            #[trigger] words.push(current)[k],
        ) && words.push(current)[k].len() > 0 by {
            if k < words.len() {
                assert(words.push(current)[k] == words[k]);
            }
        }
    }
}

proof fn lemma_flush_spaced(state: WrapState, extra: nat, limit: nat)
    requires
        state_spaced(state),
    ensures
        state_spaced(flush_if_full(state, extra, limit)),
{
    let f = flush_if_full(state, extra, limit);
    if width_of(state.line) + extra > limit && state.line.len() > 0 {
        assert forall|k: int| 0 <= k < f.out.len() implies spaced_words(#[trigger] f.out[k]) by {
            if k < state.out.len() {
                assert(f.out[k] == state.out[k]);
            }
        }
        assert(spaced_words(Seq::<StyledChar>::empty()));
    }
}

/// A non-whitespace character pushed onto a spaced line keeps it spaced.
proof fn lemma_push_solid_spaced(line: Seq<StyledChar>, c: StyledChar)
    requires
        spaced_words(line),
        !white_space(c.0),
    ensures
        spaced_words(line.push(c)),
{
    let l = line.push(c);
    assert forall|i: int| 0 <= i < l.len() && white_space((#[trigger] l[i]).0) implies l[i].0
        == ' ' by {
        if i < line.len() {
            assert(l[i] == line[i]);
        }
    }
    assert forall|i: int, j: int|
        #![trigger l[i], l[j]]
        0 <= i && j == i + 1 && j < l.len() && white_space(l[i].0) implies !white_space(
            l[j].0,
        ) by {
        if j < line.len() {
            assert(l[i] == line[i]);
            assert(l[j] == line[j]);
        } else {
            assert(l[i] == line[line.len() - 1]);
        }
    }
    if line.len() > 0 {
        assert(l[0] == line[0]);
    }
}

proof fn lemma_break_chars_spaced(state: WrapState, cs: Seq<StyledChar>, limit: nat)
    requires
        state_spaced(state),
        solid(cs),
    ensures
        state_spaced(break_chars(state, cs, limit)),
    decreases cs.len(),
{
    if cs.len() > 0 {
        assert(solid(cs.drop_last())) by {
            assert forall|i: int| 0 <= i < cs.drop_last().len() implies !white_space(
                (#[trigger] cs.drop_last()[i]).0,
            ) by {
                assert(cs.drop_last()[i] == cs[i]);
            }
        }
        lemma_break_chars_spaced(state, cs.drop_last(), limit);
        let before = break_chars(state, cs.drop_last(), limit);
        let c = cs.last();
        assert(!white_space(c.0)) by {
            assert(cs[cs.len() - 1] == c);
        }
        lemma_flush_spaced(before, cell_width(c.0), limit);
        let flushed = flush_if_full(before, cell_width(c.0), limit);
        lemma_push_solid_spaced(flushed.line, c);
    }
}

proof fn lemma_place_word_spaced(state: WrapState, word: Seq<StyledChar>, limit: nat)
    requires
        state_spaced(state),
        solid(word),
        word.len() > 0,
    ensures
        state_spaced(place_word(state, word, limit)),
{
    let gap: nat = if state.line.len() > 0 {
        1
    } else {
        0
    };
    lemma_flush_spaced(state, width_of(word) + gap, limit);
    let flushed = flush_if_full(state, width_of(word) + gap, limit);
    if width_of(word) > limit {
        lemma_break_chars_spaced(flushed, word, limit);
    } else {
        let l = flushed.line;
        let joined = spaced(l) + word;
        if l.len() == 0 {
            assert(joined =~= word);
            assert forall|i: int, j: int|
                #![trigger word[i], word[j]]
                0 <= i && j == i + 1 && j < word.len() && white_space(word[i].0) implies word[i].0
                    == ' ' && !white_space(word[j].0) by {
                assert(!white_space(word[i].0));
            }
            assert(!white_space(word[0].0));
            assert(!white_space(word[word.len() - 1].0));
        } else {
            let sp = l.push((' ', l.last().1));
            assert(spaced(l) == sp);
            assert(joined[0] == l[0]);
            assert(joined.last() == word[word.len() - 1]);
            assert(!white_space(word[word.len() - 1].0));
            assert forall|i: int, j: int|
                #![trigger joined[i], joined[j]]
                0 <= i && j == i + 1 && j < joined.len() && white_space(joined[i].0) implies joined[i].0
                    == ' ' && !white_space(joined[j].0) by {
                if j < l.len() {
                    assert(joined[i] == l[i]);
                    assert(joined[j] == l[j]);
                    assert(l[i] == l[i] && l[j] == l[j]);
                } else if j == l.len() {
                    assert(joined[i] == l[i]);
                    assert(i == l.len() - 1);
                    assert(l[l.len() - 1] == l.last());
                } else if j == l.len() + 1 {
                    assert(joined[i] == (' ', l.last().1));
                    assert(joined[j] == word[0]);
                    assert(!white_space(word[0].0));
                } else {
                    assert(joined[i] == word[i - l.len() - 1]);
                    assert(!white_space(word[i - l.len() - 1].0));
                }
            }
        }
    }
}

proof fn lemma_place_words_spaced(state: WrapState, words: Seq<Seq<StyledChar>>, limit: nat)
    requires
        state_spaced(state),
        forall|k: int| 0 <= k < words.len() ==> solid(#[trigger] words[k]) && words[k].len() > 0,
    ensures
        state_spaced(place_words(state, words, limit)),
    decreases words.len(),
{
    if words.len() > 0 {
        assert forall|k: int| 0 <= k < words.drop_last().len() implies solid(
            #[trigger] words.drop_last()[k],
        ) && words.drop_last()[k].len() > 0 by {
            assert(words.drop_last()[k] == words[k]);
        }
        lemma_place_words_spaced(state, words.drop_last(), limit);
        assert(solid(words[words.len() - 1]) && words[words.len() - 1].len() > 0);
        lemma_place_word_spaced(
            place_words(state, words.drop_last(), limit),
            words.last(),
            limit,
        );
    }
}

proof fn lemma_wrap_all_spaced(lines: Seq<Seq<StyledChar>>, limit: nat)
    ensures
        forall|k: int|
            0 <= k < wrap_all(lines, limit).len() ==> spaced_words(
                #[trigger] wrap_all(lines, limit)[k],
            ),
    decreases lines.len(),
{
    if lines.len() > 0 {
        lemma_wrap_all_spaced(lines.drop_last(), limit);
        let start = WrapState { out: Seq::empty(), line: Seq::empty() };
        assert(spaced_words(Seq::<StyledChar>::empty()));
        lemma_words_solid(lines.last());
        lemma_place_words_spaced(start, words_spec(lines.last()), limit);
        let prev = wrap_all(lines.drop_last(), limit);
        let state = place_words(start, words_spec(lines.last()), limit);
        let mine = state.out.push(state.line);
        assert forall|k: int| 0 <= k < wrap_all(lines, limit).len() implies spaced_words(
            #[trigger] wrap_all(lines, limit)[k],
        ) by {
            if k < prev.len() {
                assert(wrap_all(lines, limit)[k] == prev[k]);
            } else {
                assert(wrap_all(lines, limit)[k] == mine[k - prev.len()]);
                if k - prev.len() < state.out.len() {
                    assert(mine[k - prev.len()] == state.out[k - prev.len()]);
                }
            }
        }
    }
}

/// With a limit, every wrapped line is words separated by single spaces:
/// no line begins or ends with whitespace, and no two whitespace
/// characters stand side by side.
pub proof fn lemma_wrapped_lines_spaced(cs: Seq<StyledChar>, limit: usize)
    ensures
        forall|k: int|
            0 <= k < wrap_spec(cs, Some(limit)).len() ==> spaced_words(
                #[trigger] wrap_spec(cs, Some(limit))[k],
            ),
{
    let l: nat = if limit >= 1 {
        limit as nat
    } else {
        1
    };
    lemma_wrap_all_spaced(newline_split(cs), l);
    assert(spaced_words(Seq::<StyledChar>::empty()));
}

/// The non-whitespace characters of `cs`, in order.
pub open spec fn solid_of(cs: Seq<StyledChar>) -> Seq<StyledChar>
    decreases cs.len(),
{
    if cs.len() == 0 {
        Seq::empty()
    } else if white_space(cs.last().0) {
        solid_of(cs.drop_last())
    } else {
        solid_of(cs.drop_last()).push(cs.last())
    }
}

/// Lines laid end to end.
pub open spec fn joined(lines: Seq<Seq<StyledChar>>) -> Seq<StyledChar>
    decreases lines.len(),
{
    if lines.len() == 0 {
        Seq::empty()
    } else {
        joined(lines.drop_last()) + lines.last()
    }
}

proof fn lemma_solid_of_concat(a: Seq<StyledChar>, b: Seq<StyledChar>)
    ensures
        solid_of(a + b) == solid_of(a) + solid_of(b),
    decreases b.len(),
{
    if b.len() == 0 {
        assert(a + b =~= a);
        assert(solid_of(a) + solid_of(b) =~= solid_of(a));
    } else {
        lemma_solid_of_concat(a, b.drop_last());
        assert((a + b).drop_last() =~= a + b.drop_last());
        assert((a + b).last() == b.last());
        if !white_space(b.last().0) {
            assert(solid_of(a) + solid_of(b.drop_last()).push(b.last()) =~= (solid_of(a)
                + solid_of(b.drop_last())).push(b.last()));
        }
    }
}

proof fn lemma_solid_of_idempotent(cs: Seq<StyledChar>)
    ensures
        solid_of(solid_of(cs)) == solid_of(cs),
    decreases cs.len(),
{
    if cs.len() > 0 {
        lemma_solid_of_idempotent(cs.drop_last());
        if !white_space(cs.last().0) {
            let p = solid_of(cs.drop_last());
            assert(p.push(cs.last()).drop_last() =~= p);
        }
    }
}

proof fn lemma_joined_push(lines: Seq<Seq<StyledChar>>, line: Seq<StyledChar>)
    ensures
        joined(lines.push(line)) == joined(lines) + line,
{
    assert(lines.push(line).drop_last() =~= lines);
}

proof fn lemma_joined_concat(a: Seq<Seq<StyledChar>>, b: Seq<Seq<StyledChar>>)
    ensures
        joined(a + b) == joined(a) + joined(b),
    decreases b.len(),
{
    if b.len() == 0 {
        assert(a + b =~= a);
        assert(joined(a) + joined(b) =~= joined(a));
    } else {
        lemma_joined_concat(a, b.drop_last());
        assert((a + b).drop_last() =~= a + b.drop_last());
        assert((a + b).last() == b.last());
        assert(joined(a) + (joined(b.drop_last()) + b.last()) =~= (joined(a) + joined(
            b.drop_last(),
        )) + b.last());
    }
}

proof fn lemma_split_lines_solid(cs: Seq<StyledChar>)
    ensures
        solid_of(joined(split_lines(cs))) == solid_of(cs),
    decreases cs.len(),
{
    if cs.len() == 0 {
        assert(joined(seq![Seq::<StyledChar>::empty()]) =~= Seq::<StyledChar>::empty()) by {
            lemma_joined_push(Seq::empty(), Seq::empty());
            assert(seq![Seq::<StyledChar>::empty()] =~= Seq::<Seq<StyledChar>>::empty().push(
                Seq::empty(),
            ));
        }
    } else {
        let p = cs.drop_last();
        let c = cs.last();
        lemma_split_lines_solid(p);
        lemma_split_lines_nonempty(p);
        let prev = split_lines(p);
        if c.0 == '\n' {
            lemma_joined_push(prev, Seq::empty());
            assert(joined(prev) + Seq::<StyledChar>::empty() =~= joined(prev));
        } else {
            let n = prev.len() - 1;
            let upd = prev.update(n, prev.last().push(c));
            assert(upd.drop_last() =~= prev.drop_last());
            assert(joined(upd) =~= joined(prev).push(c)) by {
                assert(joined(prev) == joined(prev.drop_last()) + prev.last());
                assert(joined(upd) == joined(upd.drop_last()) + upd.last());
            }
            assert(joined(prev).push(c).drop_last() =~= joined(prev));
        }
    }
}

proof fn lemma_newline_split_solid(cs: Seq<StyledChar>)
    ensures
        solid_of(joined(newline_split(cs))) == solid_of(cs),
{
    lemma_split_lines_solid(cs);
    let lines = split_lines(cs);
    if lines.len() > 1 && lines.last().len() == 0 {
        assert(joined(lines) == joined(lines.drop_last()) + lines.last());
        assert(joined(lines.drop_last()) + lines.last() =~= joined(lines.drop_last()));
    }
}

proof fn lemma_word_scan_joined(cs: Seq<StyledChar>)
    ensures
        joined(word_scan(cs).0) + word_scan(cs).1 == solid_of(cs),
    decreases cs.len(),
{
    if cs.len() > 0 {
        lemma_word_scan_joined(cs.drop_last());
        let (words, current) = word_scan(cs.drop_last());
        let c = cs.last();
        if white_space(c.0) {
            if current.len() > 0 {
                lemma_joined_push(words, current);
                assert(joined(words.push(current)) + Seq::<StyledChar>::empty() =~= joined(words)
                    + current);
            }
        } else {
            assert(joined(words) + current.push(c) =~= (joined(words) + current).push(c));
        }
    }
}

/// The scanner's words, laid end to end, are the non-whitespace characters
/// of `cs`.
proof fn lemma_words_joined(cs: Seq<StyledChar>)
    ensures
        joined(words_spec(cs)) == solid_of(cs),
{
    lemma_word_scan_joined(cs);
    let (words, current) = word_scan(cs);
    if current.len() > 0 {
        lemma_joined_push(words, current);
    } else {
        assert(joined(words) + current =~= joined(words));
    }
}

/// Everything a wrapping state holds, finished lines and then the open one.
pub open spec fn state_text(state: WrapState) -> Seq<StyledChar> {
    joined(state.out) + state.line
}

proof fn lemma_flush_text(state: WrapState, extra: nat, limit: nat)
    ensures
        state_text(flush_if_full(state, extra, limit)) == state_text(state),
{
    if width_of(state.line) + extra > limit && state.line.len() > 0 {
        lemma_joined_push(state.out, state.line);
        assert(joined(state.out.push(state.line)) + Seq::<StyledChar>::empty() =~= joined(
            state.out,
        ) + state.line);
    }
}

proof fn lemma_break_chars_text(state: WrapState, cs: Seq<StyledChar>, limit: nat)
    ensures
        state_text(break_chars(state, cs, limit)) == state_text(state) + cs,
    decreases cs.len(),
{
    if cs.len() == 0 {
        assert(state_text(state) + cs =~= state_text(state));
    } else {
        lemma_break_chars_text(state, cs.drop_last(), limit);
        let before = break_chars(state, cs.drop_last(), limit);
        let c = cs.last();
        lemma_flush_text(before, cell_width(c.0), limit);
        let flushed = flush_if_full(before, cell_width(c.0), limit);
        assert(joined(flushed.out) + flushed.line.push(c) =~= (joined(flushed.out)
            + flushed.line).push(c));
        assert(state_text(state) + cs.drop_last() + seq![c] =~= state_text(state) + cs);
        assert((state_text(state) + cs.drop_last()).push(c) =~= state_text(state) + cs);
    }
}

proof fn lemma_place_word_text(state: WrapState, word: Seq<StyledChar>, limit: nat)
    ensures
        solid_of(state_text(place_word(state, word, limit))) == solid_of(state_text(state))
            + solid_of(word),
{
    let gap: nat = if state.line.len() > 0 {
        1
    } else {
        0
    };
    lemma_flush_text(state, width_of(word) + gap, limit);
    let flushed = flush_if_full(state, width_of(word) + gap, limit);
    if width_of(word) > limit {
        lemma_break_chars_text(flushed, word, limit);
        lemma_solid_of_concat(state_text(flushed), word);
    } else {
        let l = flushed.line;
        let t = joined(flushed.out) + spaced(l) + word;
        assert(state_text(place_word(state, word, limit)) =~= t);
        lemma_solid_of_concat(joined(flushed.out) + spaced(l), word);
        if l.len() > 0 {
            let sp = (' ', l.last().1);
            assert(joined(flushed.out) + spaced(l) =~= (joined(flushed.out) + l).push(sp));
            assert((joined(flushed.out) + l).push(sp).drop_last() =~= joined(flushed.out) + l);
            assert(white_space(sp.0));
        } else {
            assert(spaced(l) =~= l);
        }
    }
}

proof fn lemma_place_words_text(state: WrapState, words: Seq<Seq<StyledChar>>, limit: nat)
    ensures
        solid_of(state_text(place_words(state, words, limit))) == solid_of(state_text(state))
            + solid_of(joined(words)),
    decreases words.len(),
{
    if words.len() == 0 {
        assert(solid_of(state_text(state)) + solid_of(joined(words)) =~= solid_of(
            state_text(state),
        ));
    } else {
        lemma_place_words_text(state, words.drop_last(), limit);
        lemma_place_word_text(place_words(state, words.drop_last(), limit), words.last(), limit);
        lemma_solid_of_concat(joined(words.drop_last()), words.last());
        assert(solid_of(state_text(state)) + solid_of(joined(words.drop_last())) + solid_of(
            words.last(),
        ) =~= solid_of(state_text(state)) + (solid_of(joined(words.drop_last())) + solid_of(
            words.last(),
        )));
    }
}

proof fn lemma_wrap_words_text(line: Seq<StyledChar>, limit: nat)
    ensures
        solid_of(joined(wrap_words(words_spec(line), limit))) == solid_of(line),
{
    let start = WrapState { out: Seq::empty(), line: Seq::empty() };
    let words = words_spec(line);
    lemma_place_words_text(start, words, limit);
    let st = place_words(start, words, limit);
    lemma_joined_push(st.out, st.line);
    assert(state_text(start) =~= Seq::<StyledChar>::empty());
    assert(solid_of(Seq::<StyledChar>::empty()) + solid_of(joined(words)) =~= solid_of(
        joined(words),
    ));
    lemma_words_joined(line);
    lemma_solid_of_idempotent(line);
}

proof fn lemma_wrap_all_text(lines: Seq<Seq<StyledChar>>, limit: nat)
    ensures
        solid_of(joined(wrap_all(lines, limit))) == solid_of(joined(lines)),
    decreases lines.len(),
{
    if lines.len() > 0 {
        lemma_wrap_all_text(lines.drop_last(), limit);
        let prev = wrap_all(lines.drop_last(), limit);
        let mine = wrap_words(words_spec(lines.last()), limit);
        lemma_joined_concat(prev, mine);
        lemma_solid_of_concat(joined(prev), joined(mine));
        lemma_wrap_words_text(lines.last(), limit);
        lemma_solid_of_concat(joined(lines.drop_last()), lines.last());
    }
}

/// Wrapping loses, adds or reorders no character but whitespace: the
/// non-whitespace characters of the wrapped lines, laid end to end, are
/// those of the text, in order, with or without a limit.
pub proof fn lemma_wrap_keeps_solid_chars(cs: Seq<StyledChar>, limit: Option<usize>)
    ensures
        solid_of(joined(wrap_spec(cs, limit))) == solid_of(cs),
{
    lemma_newline_split_solid(cs);
    match limit {
        None => {},
        Some(l) => {
            let n: nat = if l >= 1 {
                l as nat
            } else {
                1
            };
            let lines = newline_split(cs);
            lemma_wrap_all_text(lines, n);
            if wrap_all(lines, n).len() == 0 {
                lemma_joined_push(Seq::empty(), Seq::empty());
                assert(seq![Seq::<StyledChar>::empty()] =~= Seq::<Seq<StyledChar>>::empty().push(
                    Seq::empty(),
                ));
                assert(joined(Seq::<Seq<StyledChar>>::empty()) + Seq::<StyledChar>::empty()
                    =~= Seq::<StyledChar>::empty());
            }
        },
    }
}

/// What each line of segments spells out.
pub open spec fn line_texts(lines: Seq<Vec<Seg>>) -> Seq<Seq<StyledChar>> {
    lines.map_values(|line: Vec<Seg>| flatten(line@))
}

proof fn lemma_line_texts(lines: Seq<Vec<Seg>>, expected: Seq<Seq<StyledChar>>)
    requires
        lines_match(lines, expected),
    ensures
        line_texts(lines) == expected,
{
    assert forall|k: int| 0 <= k < lines.len() implies #[trigger] line_texts(lines)[k]
        == expected[k] by {
        assert(flatten(lines[k]@) == expected[k]);
    }
    assert(line_texts(lines) =~= expected);
}

} // verus!
