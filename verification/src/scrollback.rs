//! The text of a contact: what was received and what was sent, in one
//! transcript.
//!
//! What was sent is printed beside what was received and told apart by the
//! ranges it occupies, so the pane draws the transcript as one paragraph.

use vstd::prelude::*;

use crate::text::{byte_len, chars_of, string_of, utf8_width_of};

verus! {

/// How many lines one decode path keeps.
pub const LINE_LIMIT: usize = 500;

/// What a scrollback holds, as mathematics.
pub struct Transcript {
    /// The printed characters.
    pub text: Seq<char>,
    /// Where the text this station sent sits, as character ranges.
    pub sent: Seq<(usize, usize)>,
    /// Whether a line break is waiting for something to be printed after it.
    pub pending_break: bool,
}

/// How many line breaks `s` holds.
pub open spec fn breaks(s: Seq<char>) -> nat
    decreases s.len(),
{
    if s.len() == 0 {
        0
    } else {
        breaks(s.drop_last()) + if s.last() == '\n' { 1nat } else { 0nat }
    }
}

/// How many lines `s` reads as.
pub open spec fn line_count(s: Seq<char>) -> nat {
    breaks(s) + 1
}

/// The length of the shortest prefix of `s` holding `k` line breaks, looking
/// no earlier than `i`.
pub open spec fn cut_after(s: Seq<char>, k: nat, i: nat) -> Option<nat>
    decreases s.len() - i,
{
    if i >= s.len() {
        None
    } else if breaks(s.take((i + 1) as int)) >= k {
        Some((i + 1) as nat)
    } else {
        cut_after(s, k, i + 1)
    }
}

/// The sent ranges that survive cutting `cut` characters off the front, moved
/// with the text.
pub open spec fn kept(ranges: Seq<(usize, usize)>, cut: usize) -> Seq<(usize, usize)>
    decreases ranges.len(),
{
    if ranges.len() == 0 {
        Seq::empty()
    } else {
        let earlier = kept(ranges.drop_last(), cut);
        let last = ranges.last();
        if last.1 <= cut {
            earlier
        } else {
            earlier.push(
                (if last.0 < cut { 0usize } else { (last.0 - cut) as usize }, (last.1 - cut) as usize),
            )
        }
    }
}

/// The transcript once the oldest lines have been dropped, if it holds more
/// than it keeps.
///
/// A tenth of the limit goes at a time beyond what is over it, and only whole
/// lines go.
pub open spec fn trimmed(t: Transcript) -> Transcript {
    let lines = line_count(t.text);
    if lines <= LINE_LIMIT {
        t
    } else {
        let dropping = (lines - LINE_LIMIT + LINE_LIMIT / 10) as nat;
        match cut_after(t.text, dropping, 0) {
            None => t,
            Some(cut) => Transcript {
                text: t.text.skip(cut as int),
                sent: kept(t.sent, cut as usize),
                pending_break: t.pending_break,
            },
        }
    }
}

/// The sent ranges with `start..end` marked, joined to the last one where it
/// continues it.
pub open spec fn marked(ranges: Seq<(usize, usize)>, start: usize, end: usize) -> Seq<
    (usize, usize),
> {
    if ranges.len() > 0 && ranges.last().1 == start {
        ranges.update(ranges.len() - 1, (ranges.last().0, end))
    } else {
        ranges.push((start, end))
    }
}

/// The transcript after one character arrives.
///
/// Carriage returns and line feeds are held as one pending break, printed only
/// when something follows it; the bell prints nothing.
pub open spec fn pushed(t: Transcript, c: char, sent: bool) -> Transcript {
    if c == '\r' || c == '\n' {
        Transcript { pending_break: true, ..t }
    } else if c == '\u{7}' {
        t
    } else {
        let broken = if t.pending_break {
            trimmed(Transcript { text: t.text.push('\n'), sent: t.sent, pending_break: false })
        } else {
            t
        };
        let start = broken.text.len() as usize;
        Transcript {
            text: broken.text.push(c),
            sent: if sent {
                marked(broken.sent, start, (start + 1) as usize)
            } else {
                broken.sent
            },
            pending_break: broken.pending_break,
        }
    }
}

/// The transcript after every character of `s` arrives, in order.
pub open spec fn pushed_all(t: Transcript, s: Seq<char>, sent: bool) -> Transcript
    decreases s.len(),
{
    if s.len() == 0 {
        t
    } else {
        pushed(pushed_all(t, s.drop_last(), sent), s.last(), sent)
    }
}

/// However many carriage returns and line feeds arrive together, they are
/// one break, and it is not printed until something follows it: a
/// teleprinter's CR CR LF does not double-space the pane, and a break at the
/// end of a transmission leaves no blank line under it.
pub proof fn lemma_line_endings_are_one_pending_break(t: Transcript, s: Seq<char>, sent: bool)
    requires
        s.len() > 0,
        forall|i: int| 0 <= i < s.len() ==> #[trigger] s[i] == '\r' || s[i] == '\n',
    ensures
        pushed_all(t, s, sent) == (Transcript { pending_break: true, ..t }),
    decreases s.len(),
{
    assert(s[s.len() - 1] == s.last());
    if s.len() > 1 {
        assert forall|i: int| 0 <= i < s.drop_last().len() implies #[trigger] s.drop_last()[i] == '\r'
            || s.drop_last()[i] == '\n' by {
            assert(s.drop_last()[i] == s[i]);
        }
        lemma_line_endings_are_one_pending_break(t, s.drop_last(), sent);
    } else {
        assert(s.drop_last() =~= Seq::<char>::empty());
        assert(pushed_all(t, s.drop_last(), sent) == t);
    }
    assert(s.last() == '\r' || s.last() == '\n');
    assert(pushed_all(t, s, sent) == pushed(pushed_all(t, s.drop_last(), sent), s.last(), sent));
}

/// The bell rings rather than printing: the transcript is left as it was.
pub proof fn lemma_the_bell_is_not_printed(t: Transcript, sent: bool)
    ensures
        pushed(t, '\u{7}', sent) == t,
{
}

/// Whether the sent ranges lie inside a text of `len` characters, each non-empty
/// and each ending before the next begins.
pub open spec fn ranges_ok(len: nat, ranges: Seq<(usize, usize)>) -> bool {
    &&& forall|i: int| #![trigger ranges[i]] 0 <= i < ranges.len() ==> ranges[i].0 < ranges[i].1 <= len
    &&& forall|i: int, j: int|
        0 <= i < j < ranges.len() ==> #[trigger] ranges[i].1 < #[trigger] ranges[j].0
}

/// Whether the text holds no carriage return and no bell.
pub open spec fn clean(text: Seq<char>) -> bool {
    forall|i: int| 0 <= i < text.len() ==> #[trigger] text[i] != '\r' && text[i] != '\u{7}'
}

/// Whether the text ends on something printed rather than on a break.
pub open spec fn settled(text: Seq<char>) -> bool {
    text.len() == 0 || text.last() != '\n'
}

/// Whether a transcript is one a scrollback can hold.
pub open spec fn transcript_ok(t: Transcript) -> bool {
    &&& ranges_ok(t.text.len(), t.sent)
    &&& clean(t.text)
    &&& settled(t.text)
    &&& line_count(t.text) <= LINE_LIMIT
}

/// The runs up to the end of the last sent range.
pub open spec fn leading_runs(text: Seq<char>, sent: Seq<(usize, usize)>) -> Seq<(bool, Seq<char>)>
    decreases sent.len(),
{
    if sent.len() == 0 {
        Seq::empty()
    } else {
        let before = leading_runs(text, sent.drop_last());
        let position = if sent.len() == 1 { 0 } else { sent[sent.len() - 2].1 as int };
        let last = sent.last();
        let gap = if last.0 > position {
            seq![(false, text.subrange(position, last.0 as int))]
        } else {
            Seq::empty()
        };
        before + gap + seq![(true, text.subrange(last.0 as int, last.1 as int))]
    }
}

/// The transcript split into runs, each marked with whether it was sent.
pub open spec fn transcript_runs(t: Transcript) -> Seq<(bool, Seq<char>)> {
    let position = if t.sent.len() == 0 { 0 } else { t.sent.last().1 as int };
    leading_runs(t.text, t.sent) + if position < t.text.len() {
        seq![(false, t.text.subrange(position, t.text.len() as int))]
    } else {
        Seq::empty()
    }
}

/// The characters of a list of runs, read one after the other.
pub open spec fn joined(runs: Seq<(bool, Seq<char>)>) -> Seq<char>
    decreases runs.len(),
{
    if runs.len() == 0 {
        Seq::empty()
    } else {
        joined(runs.drop_last()) + runs.last().1
    }
}

/// Runs as mathematics.
pub open spec fn runs_view(runs: Seq<(bool, String)>) -> Seq<(bool, Seq<char>)> {
    runs.map_values(|run: (bool, String)| (run.0, run.1@))
}

pub proof fn lemma_breaks_append(a: Seq<char>, b: Seq<char>)
    ensures
        breaks(a + b) == breaks(a) + breaks(b),
    decreases b.len(),
{
    if b.len() == 0 {
        assert(a + b =~= a);
    } else {
        lemma_breaks_append(a, b.drop_last());
        assert((a + b).drop_last() =~= a + b.drop_last());
    }
}

proof fn lemma_breaks_prefix(s: Seq<char>, i: int)
    requires
        0 <= i < s.len(),
    ensures
        breaks(s.take(i + 1)) == breaks(s.take(i)) + if s[i] == '\n' { 1nat } else { 0nat },
{
    assert(s.take(i + 1).drop_last() =~= s.take(i));
}

proof fn lemma_joined_append(a: Seq<(bool, Seq<char>)>, b: Seq<(bool, Seq<char>)>)
    ensures
        joined(a + b) == joined(a) + joined(b),
    decreases b.len(),
{
    if b.len() == 0 {
        assert(a + b =~= a);
        assert(joined(a) + Seq::<char>::empty() =~= joined(a));
    } else {
        lemma_joined_append(a, b.drop_last());
        assert((a + b).drop_last() =~= a + b.drop_last());
    }
}

proof fn lemma_joined_one(run: (bool, Seq<char>))
    ensures
        joined(seq![run]) == run.1,
{
    assert(seq![run].drop_last() =~= Seq::<(bool, Seq<char>)>::empty());
    assert(seq![run].last() == run);
    assert(joined(Seq::<(bool, Seq<char>)>::empty()) == Seq::<char>::empty());
    assert(Seq::<char>::empty() + run.1 =~= run.1);
}

proof fn lemma_leading_runs_join(text: Seq<char>, sent: Seq<(usize, usize)>)
    requires
        ranges_ok(text.len(), sent),
        sent.len() > 0,
    ensures
        joined(leading_runs(text, sent)) == text.take(sent.last().1 as int),
    decreases sent.len(),
{
    let before = sent.drop_last();
    let position = if sent.len() == 1 { 0 } else { sent[sent.len() - 2].1 as int };
    let last = sent.last();
    assert(sent[sent.len() - 1] == last);
    assert(last.0 < last.1 <= text.len());
    if sent.len() > 1 {
        assert(ranges_ok(text.len(), before)) by {
            assert forall|i: int| 0 <= i < before.len() implies #[trigger] before[i].0 < before[i].1
                <= text.len() by {
                assert(before[i] == sent[i]);
            }
            assert forall|i: int, j: int| 0 <= i < j < before.len() implies #[trigger] before[i].1
                < #[trigger] before[j].0 by {
                assert(before[i] == sent[i]);
                assert(before[j] == sent[j]);
            }
        }
        lemma_leading_runs_join(text, before);
        assert(before.last() == sent[sent.len() - 2]);
        assert(sent[sent.len() - 2].1 < sent[sent.len() - 1].0);
    } else {
        assert(leading_runs(text, before) =~= Seq::empty());
    }
    let prior = leading_runs(text, before);
    assert(joined(prior) == text.take(position)) by {
        if sent.len() == 1 {
            assert(text.take(0) =~= Seq::<char>::empty());
        }
    }
    let gap = if last.0 > position {
        seq![(false, text.subrange(position, last.0 as int))]
    } else {
        Seq::empty()
    };
    let tail = seq![(true, text.subrange(last.0 as int, last.1 as int))];
    lemma_joined_append(prior + gap, tail);
    lemma_joined_append(prior, gap);
    lemma_joined_one(tail[0]);
    assert(tail =~= seq![tail[0]]);
    if last.0 > position {
        lemma_joined_one(gap[0]);
        assert(gap =~= seq![gap[0]]);
        assert(text.take(position) + text.subrange(position, last.0 as int) + text.subrange(
            last.0 as int,
            last.1 as int,
        ) =~= text.take(last.1 as int));
    } else {
        assert(joined(gap) =~= Seq::<char>::empty()) by {
            assert(gap =~= Seq::<(bool, Seq<char>)>::empty());
        }
        assert(text.take(position) + Seq::<char>::empty() + text.subrange(
            last.0 as int,
            last.1 as int,
        ) =~= text.take(last.1 as int));
    }
}

/// Read one after the other, the runs of a transcript are the transcript.
pub proof fn lemma_runs_are_the_transcript(t: Transcript)
    requires
        ranges_ok(t.text.len(), t.sent),
    ensures
        joined(transcript_runs(t)) == t.text,
{
    let position = if t.sent.len() == 0 { 0 } else { t.sent.last().1 as int };
    let leading = leading_runs(t.text, t.sent);
    if t.sent.len() == 0 {
        assert(leading =~= Seq::empty());
    } else {
        lemma_leading_runs_join(t.text, t.sent);
        assert(t.sent[t.sent.len() - 1] == t.sent.last());
    }
    assert(joined(leading) == t.text.take(position)) by {
        if t.sent.len() == 0 {
            assert(t.text.take(0) =~= Seq::<char>::empty());
        }
    }
    let tail = if position < t.text.len() {
        seq![(false, t.text.subrange(position, t.text.len() as int))]
    } else {
        Seq::empty()
    };
    lemma_joined_append(leading, tail);
    if position < t.text.len() {
        lemma_joined_one(tail[0]);
        assert(tail =~= seq![tail[0]]);
        assert(t.text.take(position) + t.text.subrange(position, t.text.len() as int) =~= t.text);
    } else {
        assert(tail =~= Seq::<(bool, Seq<char>)>::empty());
        assert(t.text.take(position) + Seq::<char>::empty() =~= t.text);
    }
}


/// One character is printed alike whether or not it is marked sent: only
/// the ranges can differ.
proof fn lemma_pushed_prints_alike(a: Transcript, b: Transcript, c: char, x: bool, y: bool)
    requires
        a.text == b.text,
        a.pending_break == b.pending_break,
    ensures
        pushed(a, c, x).text == pushed(b, c, y).text,
        pushed(a, c, x).pending_break == pushed(b, c, y).pending_break,
{
}

/// What this station sent is printed exactly as the same text received would
/// be: the same characters, the same line breaks, the same break held back.
pub proof fn lemma_sent_text_prints_as_received(t: Transcript, s: Seq<char>)
    ensures
        pushed_all(t, s, true).text == pushed_all(t, s, false).text,
        pushed_all(t, s, true).pending_break == pushed_all(t, s, false).pending_break,
    decreases s.len(),
{
    if s.len() > 0 {
        lemma_sent_text_prints_as_received(t, s.drop_last());
        lemma_pushed_prints_alike(
            pushed_all(t, s.drop_last(), true),
            pushed_all(t, s.drop_last(), false),
            s.last(),
            true,
            false,
        );
    }
}

/// Trimming never adds a sent range.
proof fn lemma_kept_no_longer(ranges: Seq<(usize, usize)>, cut: usize)
    ensures
        kept(ranges, cut).len() <= ranges.len(),
    decreases ranges.len(),
{
    if ranges.len() > 0 {
        lemma_kept_no_longer(ranges.drop_last(), cut);
    }
}

/// Whether `c` is printed rather than taken as a break or a bell.
pub open spec fn printable(c: char) -> bool {
    c != '\r' && c != '\n' && c != '\u{7}'
}

/// Received text marks nothing as sent: the transcript holds no more sent
/// ranges than before.
pub proof fn lemma_received_text_marks_nothing(t: Transcript, s: Seq<char>)
    ensures
        pushed_all(t, s, false).sent.len() <= t.sent.len(),
    decreases s.len(),
{
    if s.len() > 0 {
        lemma_received_text_marks_nothing(t, s.drop_last());
        let before = pushed_all(t, s.drop_last(), false);
        lemma_kept_no_longer(before.sent, (before.text.len() + 1) as usize);
        if before.pending_break && printable(s.last()) {
            let grown = Transcript { text: before.text.push('\n'), sent: before.sent, pending_break: false };
            let lines = line_count(grown.text);
            if lines > LINE_LIMIT {
                let dropping = (lines - LINE_LIMIT + LINE_LIMIT / 10) as nat;
                if let Some(cut) = cut_after(grown.text, dropping, 0) {
                    lemma_kept_no_longer(before.sent, cut as usize);
                }
            }
        }
    }
}

/// Each character printed adds at most itself and the break before it.
proof fn lemma_pushed_length(t: Transcript, s: Seq<char>, sent: bool)
    ensures
        pushed_all(t, s, sent).text.len() <= t.text.len() + 2 * s.len(),
    decreases s.len(),
{
    if s.len() > 0 {
        lemma_pushed_length(t, s.drop_last(), sent);
        let before = pushed_all(t, s.drop_last(), sent);
        if before.pending_break && printable(s.last()) {
            let grown = before.text.push('\n');
            let lines = line_count(grown);
            if lines > LINE_LIMIT {
                let dropping = (lines - LINE_LIMIT + LINE_LIMIT / 10) as nat;
                lemma_cut_after_bounded(grown, dropping, 0);
            }
        }
    }
}

/// Sent text that prints anything leaves the last character printed marked
/// as sent: the last sent range reaches the end of the text.
pub proof fn lemma_sent_text_ends_marked(t: Transcript, s: Seq<char>)
    requires
        exists|i: int| 0 <= i < s.len() && printable(#[trigger] s[i]),
        t.text.len() + 2 * s.len() < usize::MAX,
    ensures
        pushed_all(t, s, true).sent.len() > 0,
        pushed_all(t, s, true).sent.last().1 == pushed_all(t, s, true).text.len(),
    decreases s.len(),
{
    let i = choose|i: int| 0 <= i < s.len() && printable(#[trigger] s[i]);
    if !printable(s.last()) {
        assert(i < s.len() - 1);
        assert(s.drop_last()[i] == s[i]);
        lemma_sent_text_ends_marked(t, s.drop_last());
    } else {
        lemma_pushed_length(t, s, true);
    }
}

/// Whether no two line breaks stand together: no line is blank but, at the
/// start, the first.
pub open spec fn no_blank_line(text: Seq<char>) -> bool {
    forall|i: int| 0 <= i && i + 1 < text.len() ==> !(#[trigger] text[i] == '\n' && text[i + 1] == '\n')
}

/// A transcript never holds two line breaks in a row, and never ends on one:
/// however the breaks arrive, they print as one, and only before something.
pub proof fn lemma_no_blank_lines(t: Transcript, s: Seq<char>, sent: bool)
    requires
        settled(t.text),
        no_blank_line(t.text),
    ensures
        settled(pushed_all(t, s, sent).text),
        no_blank_line(pushed_all(t, s, sent).text),
    decreases s.len(),
{
    if s.len() > 0 {
        lemma_no_blank_lines(t, s.drop_last(), sent);
        let before = pushed_all(t, s.drop_last(), sent);
        let c = s.last();
        if printable(c) {
            let broken = if before.pending_break {
                trimmed(Transcript { text: before.text.push('\n'), sent: before.sent, pending_break: false })
            } else {
                before
            };
            if before.pending_break {
                let grown = before.text.push('\n');
                assert(no_blank_line(grown)) by {
                    assert forall|i: int| 0 <= i && i + 1 < grown.len() implies !(#[trigger] grown[i] == '\n'
                        && grown[i + 1] == '\n') by {
                        if i + 1 < before.text.len() {
                            assert(grown[i] == before.text[i] && grown[i + 1] == before.text[i + 1]);
                        } else {
                            assert(grown[i] == before.text.last());
                        }
                    }
                }
                let lines = line_count(grown);
                if lines > LINE_LIMIT {
                    let dropping = (lines - LINE_LIMIT + LINE_LIMIT / 10) as nat;
                    if let Some(cut) = cut_after(grown, dropping, 0) {
                        assert(cut <= grown.len()) by {
                            lemma_cut_after_bounded(grown, dropping, 0);
                        }
                        let rest = grown.skip(cut as int);
                        assert forall|i: int| 0 <= i && i + 1 < rest.len() implies !(#[trigger] rest[i] == '\n'
                            && rest[i + 1] == '\n') by {
                            assert(rest[i] == grown[i + cut] && rest[i + 1] == grown[i + 1 + cut]);
                        }
                    }
                }
            }
            let printed = broken.text.push(c);
            assert(pushed(before, c, sent).text == printed);
            assert forall|i: int| 0 <= i && i + 1 < printed.len() implies !(#[trigger] printed[i] == '\n'
                && printed[i + 1] == '\n') by {
                if i + 1 < broken.text.len() {
                    assert(printed[i] == broken.text[i] && printed[i + 1] == broken.text[i + 1]);
                } else {
                    assert(printed[i + 1] == c);
                }
            }
        }
    }
}

/// A cut found by `cut_after` lies inside the text.
proof fn lemma_cut_after_bounded(s: Seq<char>, k: nat, i: nat)
    ensures
        cut_after(s, k, i) matches Some(cut) ==> i < cut <= s.len(),
    decreases s.len() - i,
{
    if i < s.len() && breaks(s.take((i + 1) as int)) < k {
        lemma_cut_after_bounded(s, k, i + 1);
    }
}

/// The characters of `s` that print, in order: all but carriage returns,
/// line feeds and bells.
pub open spec fn printed_of(s: Seq<char>) -> Seq<char>
    decreases s.len(),
{
    if s.len() == 0 {
        Seq::empty()
    } else {
        printed_of(s.drop_last()) + if printable(s.last()) {
            seq![s.last()]
        } else {
            Seq::empty()
        }
    }
}

/// The text with its line breaks taken out.
pub open spec fn without_breaks(text: Seq<char>) -> Seq<char>
    decreases text.len(),
{
    if text.len() == 0 {
        Seq::empty()
    } else {
        without_breaks(text.drop_last()) + if text.last() == '\n' {
            Seq::empty()
        } else {
            seq![text.last()]
        }
    }
}

/// How many carriage returns and line feeds `s` holds.
pub open spec fn break_count(s: Seq<char>) -> nat
    decreases s.len(),
{
    if s.len() == 0 {
        0
    } else {
        break_count(s.drop_last()) + if s.last() == '\r' || s.last() == '\n' { 1nat } else { 0nat }
    }
}

proof fn lemma_without_breaks_append(a: Seq<char>, b: Seq<char>)
    ensures
        without_breaks(a + b) == without_breaks(a) + without_breaks(b),
    decreases b.len(),
{
    if b.len() == 0 {
        assert(a + b =~= a);
        assert(without_breaks(a) + without_breaks(b) =~= without_breaks(a));
    } else {
        lemma_without_breaks_append(a, b.drop_last());
        assert((a + b).drop_last() =~= a + b.drop_last());
        assert((a + b).last() == b.last());
        assert(without_breaks(a + b) =~= without_breaks(a) + without_breaks(b));
    }
}

/// The breaks of a text are those before a point and those after it.
proof fn lemma_breaks_split(s: Seq<char>, k: int)
    requires
        0 <= k <= s.len(),
    ensures
        breaks(s) == breaks(s.take(k)) + breaks(s.skip(k)),
{
    lemma_breaks_append(s.take(k), s.skip(k));
    assert(s.take(k) + s.skip(k) =~= s);
}

/// Where the first `k` breaks lie inside `s.take(end)`, the cut falls there.
proof fn lemma_cut_within(s: Seq<char>, k: nat, i: nat, end: nat)
    requires
        i < end <= s.len(),
        breaks(s.take(end as int)) >= k,
    ensures
        cut_after(s, k, i) matches Some(cut) && cut <= end && breaks(s.take(cut as int)) >= k,
    decreases end - i,
{
    if breaks(s.take((i + 1) as int)) < k {
        if i + 1 == end {
            assert(false);
        }
        lemma_cut_within(s, k, i + 1, end);
    }
}

/// A held break printed, with the trim it may set off: where the text after
/// position `k` holds few enough breaks, the trim cuts no later than `k`, and
/// the text still holds fewer breaks than the limit allows lines.
proof fn lemma_break_printed(text: Seq<char>, sent: Seq<(usize, usize)>, k: nat) -> (cut: nat)
    requires
        breaks(text) < LINE_LIMIT,
        k <= text.len(),
        breaks(text.skip(k as int)) + 1 < LINE_LIMIT - LINE_LIMIT / 10,
    ensures
        cut <= k,
        trimmed(Transcript { text: text.push('\n'), sent, pending_break: false }).text == text.push(
            '\n',
        ).skip(cut as int),
        breaks(text.push('\n').skip(cut as int)) < LINE_LIMIT,
        cut == 0 ==> trimmed(Transcript { text: text.push('\n'), sent, pending_break: false }).sent == sent,
        cut > 0 ==> trimmed(Transcript { text: text.push('\n'), sent, pending_break: false }).sent == kept(
            sent,
            cut as usize,
        ),
{
    let grown = text.push('\n');
    lemma_breaks_append(text, seq!['\n']);
    assert(text + seq!['\n'] =~= grown);
    assert(seq!['\n'].drop_last() =~= Seq::<char>::empty());
    assert(breaks(Seq::<char>::empty()) == 0);
    assert(seq!['\n'].last() == '\n');
    assert(breaks(seq!['\n']) == 1);
    let lines = line_count(grown);
    if lines <= LINE_LIMIT {
        assert(grown.skip(0) =~= grown);
        0
    } else {
        let dropping = (lines - LINE_LIMIT + LINE_LIMIT / 10) as nat;
        assert(dropping == 51);
        assert(grown.take(k as int) =~= text.take(k as int));
        lemma_breaks_split(text, k as int);
        assert(breaks(grown.take(k as int)) >= dropping);
        lemma_cut_within(grown, dropping, 0, k);
        let cut = cut_after(grown, dropping, 0)->0;
        lemma_breaks_split(grown, cut as int);
        lemma_cut_after_bounded(grown, dropping, 0);
        cut
    }
}

/// Text pushed into a scrollback survives at its end, marked as it was
/// pushed: read without its line breaks, the transcript ends with every
/// character of `s` that prints, so long as `s` holds fewer breaks than a
/// trim keeps lines. Where `s` was sent, each of those characters is marked
/// sent and the line breaks between them are not; where it was received,
/// none of that end is marked.
pub proof fn lemma_pushed_text_survives(t: Transcript, s: Seq<char>, sent: bool) -> (k: nat)
    requires
        transcript_ok(t),
        break_count(s) < LINE_LIMIT - LINE_LIMIT / 10,
        t.text.len() + 2 * s.len() <= usize::MAX,
    ensures
        forall|i: int|
            k <= i < pushed_all(t, s, sent).text.len() ==> #[trigger] sent_at(pushed_all(t, s, sent).sent, i)
                == (sent && pushed_all(t, s, sent).text[i] != '\n'),
        k <= pushed_all(t, s, sent).text.len(),
        without_breaks(pushed_all(t, s, sent).text.skip(k as int)) == printed_of(s),
        without_breaks(pushed_all(t, s, sent).text) == without_breaks(
            pushed_all(t, s, sent).text.take(k as int),
        ) + printed_of(s),
{
    assert(bounded(t.sent, t.text.len()));
    let k = lemma_survives_step(t, s, sent);
    let text = pushed_all(t, s, sent).text;
    lemma_without_breaks_append(text.take(k as int), text.skip(k as int));
    assert(text.take(k as int) + text.skip(k as int) =~= text);
    k
}

/// What `lemma_pushed_text_survives` carries from one character to the next.
proof fn lemma_survives_step(t: Transcript, s: Seq<char>, sent: bool) -> (k: nat)
    requires
        line_count(t.text) <= LINE_LIMIT,
        break_count(s) < LINE_LIMIT - LINE_LIMIT / 10,
        bounded(t.sent, t.text.len()),
        t.text.len() + 2 * s.len() <= usize::MAX,
    ensures
        bounded(pushed_all(t, s, sent).sent, pushed_all(t, s, sent).text.len()),
        forall|i: int|
            k <= i < pushed_all(t, s, sent).text.len() ==> #[trigger] sent_at(pushed_all(t, s, sent).sent, i)
                == (sent && pushed_all(t, s, sent).text[i] != '\n'),
        k <= pushed_all(t, s, sent).text.len(),
        without_breaks(pushed_all(t, s, sent).text.skip(k as int)) == printed_of(s),
        breaks(pushed_all(t, s, sent).text.skip(k as int)) + (if pushed_all(t, s, sent).pending_break
            && printed_of(s).len() > 0 { 1nat } else { 0nat }) <= break_count(s),
        breaks(pushed_all(t, s, sent).text) < LINE_LIMIT,
        printed_of(s).len() == 0 ==> k == pushed_all(t, s, sent).text.len(),
    decreases s.len(),
{
    if s.len() == 0 {
        assert(t.text.skip(t.text.len() as int) =~= Seq::<char>::empty());
        assert(without_breaks(Seq::<char>::empty()) == Seq::<char>::empty());
        assert(breaks(Seq::<char>::empty()) == 0);
        t.text.len()
    } else {
        let k0 = lemma_survives_step(t, s.drop_last(), sent);
        let before = pushed_all(t, s.drop_last(), sent);
        lemma_pushed_length(t, s.drop_last(), sent);
        let c = s.last();
        assert(pushed_all(t, s, sent) == pushed(before, c, sent));
        if printable(c) {
            assert(printed_of(s) == printed_of(s.drop_last()).push(c));
            lemma_step_char(before, c, sent, k0, printed_of(s.drop_last()), break_count(s.drop_last()))
        } else {
            assert(printed_of(s) =~= printed_of(s.drop_last()));
            k0
        }
    }
}

/// One printed character, after what the text already held of `printed`.
proof fn lemma_step_char(
    before: Transcript,
    c: char,
    sent: bool,
    k0: nat,
    printed: Seq<char>,
    count: nat,
) -> (k: nat)
    requires
        printable(c),
        k0 <= before.text.len(),
        without_breaks(before.text.skip(k0 as int)) == printed,
        breaks(before.text.skip(k0 as int)) + (if before.pending_break && printed.len() > 0 {
            1nat
        } else {
            0nat
        }) <= count,
        count < LINE_LIMIT - LINE_LIMIT / 10,
        breaks(before.text) < LINE_LIMIT,
        printed.len() == 0 ==> k0 == before.text.len(),
        bounded(before.sent, before.text.len()),
        before.text.len() + 2 <= usize::MAX,
        forall|i: int|
            k0 <= i < before.text.len() ==> #[trigger] sent_at(before.sent, i) == (sent && before.text[i]
                != '\n'),
    ensures
        k <= pushed(before, c, sent).text.len(),
        without_breaks(pushed(before, c, sent).text.skip(k as int)) == printed.push(c),
        breaks(pushed(before, c, sent).text.skip(k as int)) <= count,
        !pushed(before, c, sent).pending_break,
        breaks(pushed(before, c, sent).text) < LINE_LIMIT,
        bounded(pushed(before, c, sent).sent, pushed(before, c, sent).text.len()),
        forall|i: int|
            k <= i < pushed(before, c, sent).text.len() ==> #[trigger] sent_at(pushed(before, c, sent).sent, i)
                == (sent && pushed(before, c, sent).text[i] != '\n'),
{
    let after = pushed(before, c, sent);
    let suffix = before.text.skip(k0 as int);
    lemma_pushed_breaks_unchanged(before.text, c);
    if before.pending_break {
        let cut = lemma_break_printed(before.text, before.sent, k0);
        let broken = before.text.push('\n').skip(cut as int);
        let b = trimmed(Transcript { text: before.text.push('\n'), sent: before.sent, pending_break: false });
        lemma_break_marks(before, sent, k0, cut);
        assert(!b.pending_break);
        assert(after == pushed(b, c, sent));
        assert(after.text == broken.push(c));
        lemma_pushed_breaks_unchanged(broken, c);
        if printed.len() == 0 {
            let k = broken.len();
            lemma_char_marks(b, c, sent, k as int);
            assert(after.text.skip(k as int) =~= seq![c]);
            assert(seq![c].drop_last() =~= Seq::<char>::empty());
            assert(without_breaks(Seq::<char>::empty()) == Seq::<char>::empty());
            assert(breaks(Seq::<char>::empty()) == 0);
            assert(seq![c].last() == c);
            assert(without_breaks(seq![c]) =~= seq![c]);
            assert(printed.push(c) =~= seq![c]);
            k
        } else {
            let k2 = (k0 - cut) as nat;
            lemma_char_marks(b, c, sent, k2 as int);
            let grown_suffix = suffix.push('\n');
            assert(before.text.push('\n').skip(k0 as int) =~= grown_suffix);
            assert(broken.skip(k2 as int) =~= grown_suffix);
            assert(after.text.skip(k2 as int) =~= grown_suffix.push(c));
            assert(grown_suffix.push(c).drop_last() =~= grown_suffix);
            assert(grown_suffix.drop_last() =~= suffix);
            assert(grown_suffix.last() == '\n');
            assert(grown_suffix.push(c).last() == c);
            assert(without_breaks(grown_suffix) =~= without_breaks(suffix) + Seq::<char>::empty());
            assert(without_breaks(grown_suffix.push(c)) =~= without_breaks(grown_suffix) + seq![c]);
            assert(without_breaks(grown_suffix.push(c)) =~= printed.push(c));
            assert(breaks(grown_suffix) == breaks(suffix) + 1);
            assert(breaks(grown_suffix.push(c)) == breaks(grown_suffix));
            k2
        }
    } else {
        lemma_char_marks(before, c, sent, k0 as int);
        assert(after.text == before.text.push(c));
        assert(after.text.skip(k0 as int) =~= suffix.push(c));
        assert(suffix.push(c).drop_last() =~= suffix);
        assert(suffix.push(c).last() == c);
        assert(without_breaks(suffix.push(c)) =~= without_breaks(suffix) + seq![c]);
        assert(without_breaks(suffix.push(c)) =~= printed.push(c));
        assert(breaks(suffix.push(c)) == breaks(suffix));
        k0
    }
}

/// Whether position `i` lies inside one of `ranges`.
pub open spec fn sent_at(ranges: Seq<(usize, usize)>, i: int) -> bool
    decreases ranges.len(),
{
    if ranges.len() == 0 {
        false
    } else {
        sent_at(ranges.drop_last(), i) || (ranges.last().0 <= i < ranges.last().1)
    }
}

/// Whether each of `ranges` runs forwards and ends by `len`.
pub open spec fn bounded(ranges: Seq<(usize, usize)>, len: nat) -> bool {
    forall|j: int| 0 <= j < ranges.len() ==> #[trigger] ranges[j].0 <= ranges[j].1 <= len
}

/// Nothing at or past where every range ends is inside one.
proof fn lemma_not_sent_past(ranges: Seq<(usize, usize)>, len: nat, i: int)
    requires
        bounded(ranges, len),
        i >= len,
    ensures
        !sent_at(ranges, i),
    decreases ranges.len(),
{
    if ranges.len() > 0 {
        assert(bounded(ranges.drop_last(), len)) by {
            assert forall|j: int| 0 <= j < ranges.drop_last().len() implies #[trigger] ranges.drop_last()[j].0
                <= ranges.drop_last()[j].1 <= len by {
                assert(ranges.drop_last()[j] == ranges[j]);
            }
        }
        assert(ranges.last() == ranges[ranges.len() - 1]);
        lemma_not_sent_past(ranges.drop_last(), len, i);
    }
}

/// Trimming moves every range with the text and keeps each position marked
/// as it was.
proof fn lemma_kept_marks(ranges: Seq<(usize, usize)>, cut: usize, len: nat)
    requires
        bounded(ranges, len),
        cut <= len,
    ensures
        bounded(kept(ranges, cut), (len - cut) as nat),
        forall|i: int| i >= cut ==> #[trigger] sent_at(kept(ranges, cut), i - cut) == sent_at(ranges, i),
    decreases ranges.len(),
{
    if ranges.len() > 0 {
        let rest = ranges.drop_last();
        let last = ranges.last();
        assert(last == ranges[ranges.len() - 1]);
        assert(bounded(rest, len)) by {
            assert forall|j: int| 0 <= j < rest.len() implies #[trigger] rest[j].0 <= rest[j].1 <= len by {
                assert(rest[j] == ranges[j]);
            }
        }
        lemma_kept_marks(rest, cut, len);
        let earlier = kept(rest, cut);
        if last.1 > cut {
            let moved = (if last.0 < cut { 0usize } else { (last.0 - cut) as usize }, (last.1 - cut) as usize);
            let now = earlier.push(moved);
            assert(kept(ranges, cut) == now);
            assert(now.drop_last() =~= earlier);
            assert(now.last() == moved);
            assert forall|j: int| 0 <= j < now.len() implies #[trigger] now[j].0 <= now[j].1 <= (len - cut) as nat by {
                if j < earlier.len() {
                    assert(now[j] == earlier[j]);
                }
            }
            assert forall|i: int| i >= cut implies #[trigger] sent_at(now, i - cut) == sent_at(ranges, i) by {
                assert(sent_at(earlier, i - cut) == sent_at(rest, i));
            }
        } else {
            assert forall|i: int| i >= cut implies #[trigger] sent_at(kept(ranges, cut), i - cut) == sent_at(
                ranges,
                i,
            ) by {
                assert(sent_at(earlier, i - cut) == sent_at(rest, i));
            }
        }
    }
}

/// Marking `start..end` past every range marks those positions and keeps the
/// rest as they were.
proof fn lemma_marked_marks(ranges: Seq<(usize, usize)>, start: usize, end: usize)
    requires
        bounded(ranges, start as nat),
        start < end,
    ensures
        bounded(marked(ranges, start, end), end as nat),
        forall|i: int| #[trigger] sent_at(marked(ranges, start, end), i) == (sent_at(ranges, i) || start <= i < end),
{
    let now = marked(ranges, start, end);
    if ranges.len() > 0 && ranges.last().1 == start {
        let last = ranges.last();
        assert(last == ranges[ranges.len() - 1]);
        assert(now.drop_last() =~= ranges.drop_last());
        assert(now.last() == (last.0, end));
        assert forall|j: int| 0 <= j < now.len() implies #[trigger] now[j].0 <= now[j].1 <= end as nat by {
            if j < now.len() - 1 {
                assert(now[j] == ranges[j]);
            }
        }
    } else {
        assert(now.drop_last() =~= ranges);
        assert(now.last() == (start, end));
        assert forall|j: int| 0 <= j < now.len() implies #[trigger] now[j].0 <= now[j].1 <= end as nat by {
            if j < now.len() - 1 {
                assert(now[j] == ranges[j]);
            }
        }
    }
}

/// Printing one character after `b`: the character is marked exactly when it
/// was sent, and every position before it keeps its mark.
proof fn lemma_char_marks(b: Transcript, c: char, sent: bool, kb: int)
    requires
        printable(c),
        !b.pending_break,
        bounded(b.sent, b.text.len()),
        b.text.len() + 1 <= usize::MAX,
        0 <= kb,
        forall|i: int| kb <= i < b.text.len() ==> #[trigger] sent_at(b.sent, i) == (sent && b.text[i] != '\n'),
    ensures
        bounded(pushed(b, c, sent).sent, pushed(b, c, sent).text.len()),
        forall|i: int|
            kb <= i < pushed(b, c, sent).text.len() ==> #[trigger] sent_at(pushed(b, c, sent).sent, i) == (sent
                && pushed(b, c, sent).text[i] != '\n'),
{
    let after = pushed(b, c, sent);
    let len = b.text.len();
    assert(after.text == b.text.push(c));
    if sent {
        assert(after.sent == marked(b.sent, len as usize, (len + 1) as usize));
        lemma_marked_marks(b.sent, len as usize, (len + 1) as usize);
    } else {
        assert(after.sent == b.sent);
        lemma_not_sent_past(b.sent, len, len as int);
        assert forall|j: int| 0 <= j < b.sent.len() implies #[trigger] b.sent[j].0 <= b.sent[j].1 <= len + 1 by {
        }
    }
    assert forall|i: int| kb <= i < after.text.len() implies #[trigger] sent_at(after.sent, i) == (sent
        && after.text[i] != '\n') by {
        if i < len {
            assert(after.text[i] == b.text[i]);
        } else {
            assert(after.text[i] == c);
        }
    }
}

/// A held break printed, and the trim it may set off: the break is never
/// marked, and every later position keeps its mark, moved with the text.
proof fn lemma_break_marks(before: Transcript, sent: bool, k0: nat, cut: nat)
    requires
        bounded(before.sent, before.text.len()),
        forall|i: int|
            k0 <= i < before.text.len() ==> #[trigger] sent_at(before.sent, i) == (sent && before.text[i]
                != '\n'),
        cut <= k0 <= before.text.len(),
        before.text.len() + 1 <= usize::MAX,
        cut == 0 ==> trimmed(Transcript { text: before.text.push('\n'), sent: before.sent, pending_break: false }).sent
            == before.sent,
        cut > 0 ==> trimmed(Transcript { text: before.text.push('\n'), sent: before.sent, pending_break: false }).sent
            == kept(before.sent, cut as usize),
        trimmed(Transcript { text: before.text.push('\n'), sent: before.sent, pending_break: false }).text
            == before.text.push('\n').skip(cut as int),
    ensures
        bounded(
            trimmed(Transcript { text: before.text.push('\n'), sent: before.sent, pending_break: false }).sent,
            trimmed(Transcript { text: before.text.push('\n'), sent: before.sent, pending_break: false }).text.len(),
        ),
        forall|i: int|
            k0 - cut <= i < trimmed(
                Transcript { text: before.text.push('\n'), sent: before.sent, pending_break: false },
            ).text.len() ==> #[trigger] sent_at(
                trimmed(Transcript { text: before.text.push('\n'), sent: before.sent, pending_break: false }).sent,
                i,
            ) == (sent && trimmed(
                Transcript { text: before.text.push('\n'), sent: before.sent, pending_break: false },
            ).text[i] != '\n'),
{
    let grown = before.text.push('\n');
    let broken = trimmed(Transcript { text: grown, sent: before.sent, pending_break: false });
    assert(bounded(before.sent, grown.len())) by {
        assert forall|j: int| 0 <= j < before.sent.len() implies #[trigger] before.sent[j].0 <= before.sent[j].1
            <= grown.len() by {
        }
    }
    lemma_not_sent_past(before.sent, before.text.len(), before.text.len() as int);
    assert forall|i: int| k0 <= i < grown.len() implies #[trigger] sent_at(before.sent, i) == (sent && grown[i]
        != '\n') by {
        if i < before.text.len() {
            assert(grown[i] == before.text[i]);
        }
    }
    if cut > 0 {
        assert((cut as usize) as int == cut);
        lemma_kept_marks(before.sent, cut as usize, grown.len());
        assert forall|i: int| k0 - cut <= i < broken.text.len() implies #[trigger] sent_at(broken.sent, i) == (sent
            && broken.text[i] != '\n') by {
            assert(broken.text[i] == grown[i + cut]);
            assert(sent_at(kept(before.sent, cut as usize), (i + cut) - cut) == sent_at(before.sent, i + cut));
            assert((i + cut) - cut == i);
        }
    } else {
        assert(broken.text =~= grown);
    }
}

/// Printing a character other than a line break adds no break.
proof fn lemma_pushed_breaks_unchanged(text: Seq<char>, c: char)
    ensures
        c != '\n' ==> breaks(text.push(c)) == breaks(text),
{
    assert(text.push(c).drop_last() =~= text);
}

/// The texts of the runs marked sent, in order.
pub open spec fn sent_runs(runs: Seq<(bool, Seq<char>)>) -> Seq<Seq<char>>
    decreases runs.len(),
{
    if runs.len() == 0 {
        Seq::empty()
    } else {
        sent_runs(runs.drop_last()) + if runs.last().0 {
            seq![runs.last().1]
        } else {
            Seq::empty()
        }
    }
}

/// The text each sent range covers, in order.
pub open spec fn sent_texts(text: Seq<char>, ranges: Seq<(usize, usize)>) -> Seq<Seq<char>> {
    ranges.map_values(|range: (usize, usize)| text.subrange(range.0 as int, range.1 as int))
}

/// Whether no run is empty and no two runs side by side are marked alike.
pub open spec fn alternating(runs: Seq<(bool, Seq<char>)>) -> bool {
    &&& forall|i: int| 0 <= i < runs.len() ==> (#[trigger] runs[i]).1.len() > 0
    &&& forall|i: int| 0 <= i && i + 1 < runs.len() ==> (#[trigger] runs[i]).0 != runs[i + 1].0
}

proof fn lemma_sent_runs_append(a: Seq<(bool, Seq<char>)>, b: Seq<(bool, Seq<char>)>)
    ensures
        sent_runs(a + b) == sent_runs(a) + sent_runs(b),
    decreases b.len(),
{
    if b.len() == 0 {
        assert(a + b =~= a);
        assert(sent_runs(a) + sent_runs(b) =~= sent_runs(a));
    } else {
        lemma_sent_runs_append(a, b.drop_last());
        assert((a + b).drop_last() =~= a + b.drop_last());
        assert((a + b).last() == b.last());
    }
}

proof fn lemma_sent_runs_one(run: (bool, Seq<char>))
    ensures
        sent_runs(seq![run]) == if run.0 { seq![run.1] } else { Seq::<Seq<char>>::empty() },
{
    assert(seq![run].drop_last() =~= Seq::<(bool, Seq<char>)>::empty());
    assert(seq![run].last() == run);
    assert(sent_runs(Seq::<(bool, Seq<char>)>::empty()) == Seq::<Seq<char>>::empty());
    if run.0 {
        assert(Seq::<Seq<char>>::empty() + seq![run.1] =~= seq![run.1]);
    } else {
        assert(Seq::<Seq<char>>::empty() + Seq::<Seq<char>>::empty() =~= Seq::<Seq<char>>::empty());
    }
}

proof fn lemma_leading_runs_alternate(text: Seq<char>, sent: Seq<(usize, usize)>)
    requires
        ranges_ok(text.len(), sent),
    ensures
        alternating(leading_runs(text, sent)),
        sent.len() > 0 ==> leading_runs(text, sent).len() > 0 && leading_runs(text, sent).last().0,
        sent.len() == 0 ==> leading_runs(text, sent).len() == 0,
        sent_runs(leading_runs(text, sent)) == sent_texts(text, sent),
    decreases sent.len(),
{
    if sent.len() == 0 {
        assert(sent_texts(text, sent) =~= Seq::<Seq<char>>::empty());
    } else {
        let rest = sent.drop_last();
        assert(ranges_ok(text.len(), rest)) by {
            assert forall|i: int| 0 <= i < rest.len() implies #[trigger] rest[i].0 < rest[i].1 <= text.len() by {
                assert(rest[i] == sent[i]);
            }
            assert forall|i: int, j: int| 0 <= i < j < rest.len() implies #[trigger] rest[i].1 < #[trigger] rest[j].0 by {
                assert(rest[i] == sent[i] && rest[j] == sent[j]);
            }
        }
        lemma_leading_runs_alternate(text, rest);
        let before = leading_runs(text, rest);
        let position = if sent.len() == 1 { 0 } else { sent[sent.len() - 2].1 as int };
        let last = sent.last();
        assert(last == sent[sent.len() - 1]);
        assert(last.0 < last.1 <= text.len());
        if sent.len() > 1 {
            assert(sent[sent.len() - 2].1 < sent[sent.len() - 1].0);
        }
        let gap = if last.0 > position {
            seq![(false, text.subrange(position, last.0 as int))]
        } else {
            Seq::empty()
        };
        let mine = seq![(true, text.subrange(last.0 as int, last.1 as int))];
        let runs = before + gap + mine;
        assert(leading_runs(text, sent) == runs);
        assert(alternating(runs)) by {
            assert forall|i: int| 0 <= i < runs.len() implies (#[trigger] runs[i]).1.len() > 0 by {
                if i < before.len() {
                    assert(runs[i] == before[i]);
                } else if i < before.len() + gap.len() {
                    assert(runs[i] == gap[i - before.len()]);
                } else {
                    assert(runs[i] == mine[0]);
                }
            }
            assert forall|i: int| 0 <= i && i + 1 < runs.len() implies (#[trigger] runs[i]).0 != runs[i + 1].0 by {
                if i + 1 < before.len() {
                    assert(runs[i] == before[i] && runs[i + 1] == before[i + 1]);
                } else if i + 1 == before.len() {
                    assert(runs[i] == before.last());
                    assert(sent.len() > 1);
                    assert(runs[i + 1] == gap[0]);
                } else if i < before.len() + gap.len() {
                    assert(runs[i] == gap[i - before.len()]);
                    assert(runs[i + 1] == mine[0]);
                } else {
                    assert(false);
                }
            }
        }
        assert(runs.last() == mine[0]);
        lemma_sent_runs_append(before + gap, mine);
        lemma_sent_runs_append(before, gap);
        lemma_sent_runs_one(mine[0]);
        assert(mine =~= seq![mine[0]]);
        if gap.len() > 0 {
            assert(gap =~= seq![gap[0]]);
            lemma_sent_runs_one(gap[0]);
        } else {
            assert(sent_runs(gap) =~= Seq::<Seq<char>>::empty());
        }
        assert(sent_texts(text, sent) =~= sent_texts(text, rest).push(text.subrange(last.0 as int, last.1 as int)));
        assert(sent_runs(runs) =~= sent_texts(text, sent));
    }
}

/// The runs of a transcript are never empty, never two of a kind side by
/// side, and the runs marked sent are exactly the sent ranges, in order.
pub proof fn lemma_runs_alternate(t: Transcript)
    requires
        ranges_ok(t.text.len(), t.sent),
    ensures
        alternating(transcript_runs(t)),
        sent_runs(transcript_runs(t)) == sent_texts(t.text, t.sent),
{
    lemma_leading_runs_alternate(t.text, t.sent);
    let leading = leading_runs(t.text, t.sent);
    let position = if t.sent.len() == 0 { 0 } else { t.sent.last().1 as int };
    if t.sent.len() > 0 {
        assert(t.sent.last() == t.sent[t.sent.len() - 1]);
    }
    let tail = if position < t.text.len() {
        seq![(false, t.text.subrange(position, t.text.len() as int))]
    } else {
        Seq::empty()
    };
    let runs = leading + tail;
    assert(transcript_runs(t) == runs);
    assert forall|i: int| 0 <= i < runs.len() implies (#[trigger] runs[i]).1.len() > 0 by {
        if i < leading.len() {
            assert(runs[i] == leading[i]);
        } else {
            assert(runs[i] == tail[0]);
        }
    }
    assert forall|i: int| 0 <= i && i + 1 < runs.len() implies (#[trigger] runs[i]).0 != runs[i + 1].0 by {
        if i + 1 < leading.len() {
            assert(runs[i] == leading[i] && runs[i + 1] == leading[i + 1]);
        } else {
            assert(runs[i] == leading.last());
            assert(runs[i + 1] == tail[0]);
        }
    }
    lemma_sent_runs_append(leading, tail);
    if tail.len() > 0 {
        assert(tail =~= seq![tail[0]]);
        lemma_sent_runs_one(tail[0]);
    } else {
        assert(sent_runs(tail) =~= Seq::<Seq<char>>::empty());
    }
    assert(sent_runs(runs) =~= sent_texts(t.text, t.sent));
}

/// Whether `c` has the Unicode `White_Space` property.
pub open spec fn whitespace(c: char) -> bool {
    ||| ('\u{9}' <= c && c <= '\u{d}')
    ||| c == ' ' || c == '\u{85}' || c == '\u{a0}' || c == '\u{1680}'
    ||| ('\u{2000}' <= c && c <= '\u{200a}')
    ||| c == '\u{2028}' || c == '\u{2029}' || c == '\u{202f}' || c == '\u{205f}' || c == '\u{3000}'
}

/// Where the word holding position `index` starts: just after the last
/// whitespace before it.
pub open spec fn word_start(s: Seq<char>, index: int) -> int
    decreases index,
{
    if index <= 0 {
        0
    } else if whitespace(s[index - 1]) {
        index
    } else {
        word_start(s, index - 1)
    }
}

/// Where the word holding position `index` ends: at the first whitespace from
/// it on.
pub open spec fn word_end(s: Seq<char>, index: int) -> int
    decreases s.len() - index,
{
    if index >= s.len() {
        s.len() as int
    } else if whitespace(s[index]) {
        index
    } else {
        word_end(s, index + 1)
    }
}

/// The word at `index`, taken as a callsign is: a run with no whitespace in it.
pub open spec fn word_at_spec(s: Seq<char>, index: int) -> Option<Seq<char>> {
    if index > s.len() {
        None
    } else {
        let word = s.subrange(word_start(s, index), word_end(s, index));
        if word.len() == 0 {
            None
        } else {
            Some(word)
        }
    }
}

/// The character position that byte offset `index` of `s` falls on, when it
/// falls on one.
pub open spec fn char_at_byte(s: Seq<char>, index: int) -> Option<int> {
    if exists|k: int| 0 <= k <= s.len() && byte_len(s.take(k)) == index {
        Some(choose|k: int| 0 <= k <= s.len() && byte_len(s.take(k)) == index)
    } else {
        None
    }
}

/// The word at byte offset `index`: nothing past the end of the text, and
/// otherwise the word at the character that offset falls on.
pub open spec fn word_at_byte_spec(s: Seq<char>, index: int) -> Option<Seq<char>> {
    if index > byte_len(s) {
        None
    } else {
        match char_at_byte(s, index) {
            Some(k) => word_at_spec(s, k),
            None => None,
        }
    }
}

/// The byte offsets of the characters of `s` only grow.
proof fn lemma_byte_len_grows(s: Seq<char>, j: int, k: int)
    requires
        0 <= j < k <= s.len(),
    ensures
        byte_len(s.take(j)) < byte_len(s.take(k)),
        k == s.len() ==> byte_len(s.take(j)) < byte_len(s),
    decreases k - j,
{
    assert(s.take(s.len() as int) =~= s);
    assert(s.take(k).drop_last() =~= s.take(k - 1));
    if j < k - 1 {
        lemma_byte_len_grows(s, j, k - 1);
    }
}

proof fn lemma_word_bounds(s: Seq<char>, index: int)
    requires
        0 <= index <= s.len(),
    ensures
        0 <= word_start(s, index) <= index <= word_end(s, index) <= s.len(),
        forall|i: int|
            word_start(s, index) <= i < word_end(s, index) ==> !whitespace(#[trigger] s[i]),
    decreases s.len() - index,
{
    lemma_word_start(s, index);
    if index < s.len() && !whitespace(s[index]) {
        lemma_word_bounds(s, index + 1);
        lemma_word_start(s, index + 1);
        assert(word_start(s, index + 1) == word_start(s, index));
    }
}

proof fn lemma_word_start(s: Seq<char>, index: int)
    requires
        0 <= index <= s.len(),
    ensures
        0 <= word_start(s, index) <= index,
        forall|i: int| word_start(s, index) <= i < index ==> !whitespace(#[trigger] s[i]),
    decreases index,
{
    if index > 0 && !whitespace(s[index - 1]) {
        lemma_word_start(s, index - 1);
    }
}

/// Whether `c` has the Unicode `White_Space` property.
pub fn is_whitespace(c: char) -> (space: bool)
    ensures
        space == whitespace(c),
{
    match c {
        '\u{9}'..='\u{d}' | ' ' | '\u{85}' | '\u{a0}' | '\u{1680}' | '\u{2000}'..='\u{200a}'
        | '\u{2028}' | '\u{2029}' | '\u{202f}' | '\u{205f}' | '\u{3000}' => true,
        _ => false,
    }
}

/// The word at character position `index`, taken as a callsign is: a run with
/// no whitespace in it.
///
/// Punctuation is kept rather than trimmed, because a callsign carries a
/// stroke in it.
pub fn word_at_char(text: &str, index: usize) -> (word: Option<String>)
    ensures
        word matches Some(w) ==> word_at_spec(text@, index as int) == Some(w@),
        word is None ==> word_at_spec(text@, index as int) is None,
        word matches Some(w) ==> forall|i: int| 0 <= i < w@.len() ==> !whitespace(#[trigger] w@[i]),
{
    let characters = chars_of(text);
    let length = characters.len();
    if index > length {
        return None;
    }
    let mut start = index;
    while start > 0 && !is_whitespace(characters[start - 1])
        invariant
            characters@ == text@,
            length == text@.len(),
            start <= index <= length,
            word_start(text@, start as int) == word_start(text@, index as int),
        decreases start,
    {
        start -= 1;
    }
    let mut end = index;
    while end < length && !is_whitespace(characters[end])
        invariant
            characters@ == text@,
            index <= end <= length,
            length == text@.len(),
            word_end(text@, end as int) == word_end(text@, index as int),
        decreases length - end,
    {
        end += 1;
    }
    proof {
        lemma_word_bounds(text@, index as int);
    }
    if start == end {
        return None;
    }
    Some(string_of(characters.as_slice(), start, end))
}

/// The word at byte offset `index` of `text`, taken as a callsign is: a run
/// with no whitespace in it; nothing when `index` is past the end.
pub fn word_at(text: &str, index: usize) -> (word: Option<String>)
    requires
        byte_len(text@) <= usize::MAX,
        index > byte_len(text@) || char_at_byte(text@, index as int) is Some,
    ensures
        word matches Some(w) ==> word_at_byte_spec(text@, index as int) == Some(w@),
        word is None ==> word_at_byte_spec(text@, index as int) is None,
{
    let characters = chars_of(text);
    let mut k: usize = 0;
    let mut offset: usize = 0;
    proof {
        assert(text@.take(0) =~= Seq::<char>::empty());
    }
    while k < characters.len() && offset < index
        invariant
            characters@ == text@,
            k <= characters@.len(),
            offset == byte_len(text@.take(k as int)),
            k > 0 ==> byte_len(text@.take(k - 1)) < index,
            byte_len(text@) <= usize::MAX,
        decreases characters@.len() - k,
    {
        proof {
            assert(text@.take(k as int + 1).drop_last() =~= text@.take(k as int));
            assert(text@.take(k as int + 1).last() == text@[k as int]);
            if k + 1 < text@.len() {
                lemma_byte_len_grows(text@, k as int + 1, text@.len() as int);
            } else {
                assert(text@.take(k as int + 1) =~= text@);
            }
        }
        let width = utf8_width_of(characters[k]);
        proof {
            assert(byte_len(text@.take(k as int + 1)) == offset + width);
            assert(byte_len(text@.take(k as int + 1)) <= byte_len(text@));
        }
        offset = offset + width;
        k = k + 1;
    }
    proof {
        if k == text@.len() {
            assert(text@.take(k as int) =~= text@);
        } else {
            lemma_byte_len_grows(text@, k as int, text@.len() as int);
        }
    }
    if offset != index {
        proof {
            if index <= byte_len(text@) {
                let j = choose|j: int| 0 <= j <= text@.len() && byte_len(text@.take(j)) == index;
                if j < k {
                    if j < k - 1 {
                        lemma_byte_len_grows(text@, j, k - 1);
                    }
                    assert(false);
                } else if j > k {
                    lemma_byte_len_grows(text@, k as int, j);
                    assert(false);
                }
            }
        }
        return None;
    }
    proof {
        assert(0 <= k <= text@.len() && byte_len(text@.take(k as int)) == index as int);
        let j = choose|j: int| 0 <= j <= text@.len() && byte_len(text@.take(j)) == index as int;
        if j < k {
            lemma_byte_len_grows(text@, j, k as int);
        } else if j > k {
            lemma_byte_len_grows(text@, k as int, j);
        }
        assert(j == k);
        assert(char_at_byte(text@, index as int) == Some(k as int));
        assert(index as int <= byte_len(text@));
    }
    word_at_char(text, k)
}

/// The characters, the sent ranges and the held break a scrollback keeps,
/// as they are while being changed.
#[derive(Debug)]
struct Held {
    text: Vec<char>,
    sent: Vec<(usize, usize)>,
    pending_break: bool,
}

impl View for Held {
    type V = Transcript;

    closed spec fn view(&self) -> Transcript {
        Transcript { text: self.text@, sent: self.sent@, pending_break: self.pending_break }
    }
}

impl Held {
    /// Whether this is a state a scrollback's operations leave it in.
    spec fn wf(&self) -> bool {
        transcript_ok(self@) && no_blank_line(self@.text)
    }

    /// A copy of what is held.
    fn duplicate(&self) -> (copy: Held)
        ensures
            copy@ == self@,
    {
        let mut text: Vec<char> = Vec::new();
        let mut i: usize = 0;
        while i < self.text.len()
            invariant
                i <= self.text@.len(),
                text@ == self.text@.take(i as int),
            decreases self.text@.len() - i,
        {
            text.push(self.text[i]);
            i = i + 1;
            proof {
                assert(text@ =~= self.text@.take(i as int));
            }
        }
        let mut sent: Vec<(usize, usize)> = Vec::new();
        let mut j: usize = 0;
        while j < self.sent.len()
            invariant
                j <= self.sent@.len(),
                sent@ == self.sent@.take(j as int),
            decreases self.sent@.len() - j,
        {
            sent.push(self.sent[j]);
            j = j + 1;
            proof {
                assert(sent@ =~= self.sent@.take(j as int));
            }
        }
        proof {
            assert(text@ =~= self.text@);
            assert(sent@ =~= self.sent@);
        }
        Held { text, sent, pending_break: self.pending_break }
    }

    fn empty() -> (held: Held)
        ensures
            held@.text.len() == 0,
            held@.sent.len() == 0,
            !held@.pending_break,
            held.wf(),
    {
        Held { text: Vec::new(), sent: Vec::new(), pending_break: false }
    }

    fn push_all(&mut self, text: &str, sent: bool)
        requires
            old(self).wf(),
        ensures
            final(self).wf(),
            final(self)@ == pushed_all(old(self)@, text@, sent),
    {
        let characters = chars_of(text);
        let ghost start = self@;
        let mut index: usize = 0;
        while index < characters.len()
            invariant
                characters@ == text@,
                index <= characters@.len(),
                self.wf(),
                self@ == pushed_all(start, text@.take(index as int), sent),
            decreases characters@.len() - index,
        {
            self.push(characters[index], sent);
            proof {
                assert(text@.take(index as int + 1).drop_last() =~= text@.take(index as int));
            }
            index += 1;
        }
        proof {
            assert(text@.take(index as int) =~= text@);
        }
    }

    fn push(&mut self, character: char, sent: bool)
        requires
            old(self).wf(),
        ensures
            final(self).wf(),
            final(self)@ == pushed(old(self)@, character, sent),
    {
        if character == '\r' || character == '\n' {
            self.pending_break = true;
            return;
        }
        if character == '\u{7}' {
            return;
        }
        if self.pending_break {
            self.pending_break = false;
            self.text.push('\n');
            proof {
                let t = self.text@;
                assert(t.drop_last() =~= old(self).text@);
                assert(breaks(t) == breaks(old(self).text@) + 1);
                assert(clean(t)) by {
                    assert forall|i: int| 0 <= i < t.len() implies #[trigger] t[i] != '\r' && t[i]
                        != '\u{7}' by {
                        if i < t.len() - 1 {
                            assert(t[i] == old(self).text@[i]);
                        }
                    }
                }
            }
            self.trim();
        }
        let start = self.text.len();
        let ghost before_push = self.text@;
        assert(breaks(before_push) < LINE_LIMIT);
        assert(ranges_ok(before_push.len(), self.sent@));
        self.text.push(character);
        let end = self.text.len();
        proof {
            let t = self.text@;
            assert(t.drop_last() =~= before_push);
            assert(breaks(t) == breaks(t.drop_last()));
            assert(clean(t)) by {
                assert forall|i: int| 0 <= i < t.len() implies #[trigger] t[i] != '\r' && t[i]
                    != '\u{7}' by {
                    if i < t.len() - 1 {
                        assert(t[i] == t.drop_last()[i]);
                    }
                }
            }
        }
        proof {
            let t = self.text@;
            assert(t.last() == character);
            assert(settled(t));
            assert(line_count(t) <= LINE_LIMIT);
            let r = self.sent@;
            assert forall|i: int| 0 <= i < r.len() implies #[trigger] r[i].0 < r[i].1 <= t.len() by {
                assert(r[i].1 <= before_push.len());
            }
            assert(ranges_ok(t.len(), r));
        }
        if sent {
            self.mark_sent(start, end);
        }
        proof {
            let one = seq![character];
            assert(one.drop_last() =~= Seq::<char>::empty());
            assert(one.last() == character);
            assert(pushed_all(old(self)@, Seq::<char>::empty(), sent) == old(self)@);
            assert(pushed_all(old(self)@, one, sent) == pushed(old(self)@, character, sent));
            lemma_no_blank_lines(old(self)@, one, sent);
        }
    }

    /// Records a run as sent, extending the last one where it continues.
    fn mark_sent(&mut self, start: usize, end: usize)
        requires
            ranges_ok(start as nat, old(self).sent@),
            start < end,
            end == old(self).text@.len(),
        ensures
            final(self).text@ == old(self).text@,
            final(self).pending_break == old(self).pending_break,
            final(self).sent@ == marked(old(self).sent@, start, end),
            ranges_ok(end as nat, final(self).sent@),
    {
        let count = self.sent.len();
        if count > 0 && self.sent[count - 1].1 == start {
            let first = self.sent[count - 1].0;
            self.sent.set(count - 1, (first, end));
            proof {
                let old_sent = old(self).sent@;
                let r = self.sent@;
                assert(r =~= marked(old_sent, start, end));
                assert forall|i: int, j: int| 0 <= i < j < r.len() implies #[trigger] r[i].1
                    < #[trigger] r[j].0 by {
                    assert(old_sent[i].1 < old_sent[j].0);
                }
            }
        } else {
            self.sent.push((start, end));
            proof {
                let old_sent = old(self).sent@;
                let r = self.sent@;
                assert(r =~= marked(old_sent, start, end));
                assert forall|i: int, j: int| 0 <= i < j < r.len() implies #[trigger] r[i].1
                    < #[trigger] r[j].0 by {
                    if j == r.len() - 1 {
                        if i < j - 1 {
                            assert(old_sent[i].1 < old_sent[j - 1].0);
                        }
                        assert(old_sent[j - 1].1 <= start);
                    } else {
                        assert(old_sent[i].1 < old_sent[j].0);
                    }
                }
            }
        }
    }

    /// Drops the oldest lines once the pane is holding more than it keeps.
    fn trim(&mut self)
        requires
            ranges_ok(old(self).text@.len(), old(self).sent@),
            clean(old(self).text@),
            breaks(old(self).text@) <= LINE_LIMIT,
            old(self).text@.len() > 0,
            old(self).text@.last() == '\n',
        ensures
            final(self)@ == trimmed(old(self)@),
            ranges_ok(final(self).text@.len(), final(self).sent@),
            clean(final(self).text@),
            breaks(final(self).text@) < LINE_LIMIT,
            final(self).text@.len() > 0,
            final(self).text@.last() == '\n',
    {
        let ghost held = self.text@;
        let length = self.text.len();
        let mut count: usize = 0;
        let mut index: usize = 0;
        while index < length
            invariant
                length == held.len(),
                self.text@ == held,
                index <= length,
                count == breaks(held.take(index as int)),
                count <= index,
            decreases length - index,
        {
            proof {
                lemma_breaks_prefix(held, index as int);
            }
            if self.text[index] == '\n' {
                count += 1;
            }
            index += 1;
        }
        proof {
            assert(held.take(length as int) =~= held);
        }
        let lines = count + 1;
        if lines <= LINE_LIMIT {
            return;
        }
        let dropping = lines - LINE_LIMIT + LINE_LIMIT / 10;
        let mut seen: usize = 0;
        let mut index: usize = 0;
        let mut cut: usize = 0;
        let mut found = false;
        while index < length
            invariant_except_break
                length == held.len(),
                self.text@ == held,
                index <= length,
                seen == breaks(held.take(index as int)),
                seen < dropping,
                cut_after(held, dropping as nat, 0) == cut_after(
                    held,
                    dropping as nat,
                    index as nat,
                ),
                !found,
            ensures
                length == held.len(),
                self.text@ == held,
                found ==> cut_after(held, dropping as nat, 0) == Some(cut as nat) && 0 < cut
                    <= length && breaks(held.take(cut as int)) == dropping,
                !found ==> seen == breaks(held.take(length as int)) && seen < dropping,
            decreases length - index,
        {
            proof {
                lemma_breaks_prefix(held, index as int);
            }
            if self.text[index] == '\n' {
                seen += 1;
            }
            if seen == dropping {
                cut = index + 1;
                found = true;
                break;
            }
            index += 1;
        }
        if !found {
            proof {
                assert(held.take(length as int) =~= held);
                assert(false);
            }
            return;
        }
        // Keep only the characters after the cut.
        let mut text: Vec<char> = Vec::new();
        let mut position = cut;
        while position < length
            invariant
                cut <= position <= length,
                length == held.len(),
                self.text@ == held,
                text@ == held.subrange(cut as int, position as int),
            decreases length - position,
        {
            text.push(self.text[position]);
            proof {
                assert(held.subrange(cut as int, position as int + 1) =~= held.subrange(
                    cut as int,
                    position as int,
                ).push(held[position as int]));
            }
            position += 1;
        }
        proof {
            assert(held.subrange(cut as int, length as int) =~= held.skip(cut as int));
        }
        // Move the sent ranges with the text.
        let ghost ranges = self.sent@;
        let mut sent: Vec<(usize, usize)> = Vec::new();
        let mut item: usize = 0;
        while item < self.sent.len()
            invariant
                ranges == self.sent@,
                ranges_ok(length as nat, ranges),
                0 < cut <= length,
                item <= ranges.len(),
                sent@ == kept(ranges.take(item as int), cut),
                ranges_ok((length - cut) as nat, sent@),
                sent@.len() > 0 ==> item > 0 && sent@.last().1 + cut <= ranges[item - 1].1,
            decreases ranges.len() - item,
        {
            let (start, end) = self.sent[item];
            proof {
                assert(ranges.take(item as int + 1).drop_last() =~= ranges.take(item as int));
                assert(ranges.take(item as int + 1).last() == ranges[item as int]);
            }
            if end > cut {
                let moved_start = if start < cut {
                    0
                } else {
                    start - cut
                };
                let ghost before = sent@;
                sent.push((moved_start, end - cut));
                proof {
                    let r = sent@;
                    assert forall|i: int| 0 <= i < r.len() implies #[trigger] r[i].0 < r[i].1 <= (
                    length - cut) as nat by {
                        if i < r.len() - 1 {
                            assert(r[i] == before[i]);
                        }
                    }
                    assert forall|i: int, j: int| 0 <= i < j < r.len() implies #[trigger] r[i].1
                        < #[trigger] r[j].0 by {
                        if j == r.len() - 1 {
                            assert(r[i] == before[i]);
                            if i < before.len() - 1 {
                                assert(before[i].1 < before[before.len() - 1].0);
                            }
                            assert(before[i].1 <= before.last().1);
                            assert(ranges[item - 1].1 <= ranges[item as int].0 || item - 1 == item);
                            if item > 0 {
                                assert(ranges[item - 1].1 < ranges[item as int].0);
                            }
                        } else {
                            assert(r[i] == before[i]);
                            assert(r[j] == before[j]);
                        }
                    }
                }
            }
            item += 1;
        }
        proof {
            assert(ranges.take(ranges.len() as int) =~= ranges);
            let remaining = held.skip(cut as int);
            assert(held =~= held.take(cut as int) + remaining);
            lemma_breaks_append(held.take(cut as int), remaining);
            assert(remaining.len() > 0) by {
                if remaining.len() == 0 {
                    assert(breaks(remaining) == 0);
                }
            }
            assert(remaining.last() == held.last());
            assert(clean(remaining)) by {
                assert forall|i: int| 0 <= i < remaining.len() implies #[trigger] remaining[i]
                    != '\r' && remaining[i] != '\u{7}' by {
                    assert(remaining[i] == held[i + cut]);
                }
            }
        }
        self.text = text;
        self.sent = sent;
    }

    /// The transcript split into runs, each marked with whether it was sent.
    fn runs(&self) -> (runs: Vec<(bool, String)>)
        requires
            self.wf(),
        ensures
            runs_view(runs@) == transcript_runs(self@),
            joined(runs_view(runs@)) == self@.text,
            alternating(runs_view(runs@)),
            sent_runs(runs_view(runs@)) == sent_texts(self@.text, self@.sent),
    {
        let mut runs: Vec<(bool, String)> = Vec::new();
        let mut position: usize = 0;
        let mut item: usize = 0;
        let length = self.text.len();
        while item < self.sent.len()
            invariant
                self.wf(),
                length == self@.text.len(),
                item <= self@.sent.len(),
                runs_view(runs@) == leading_runs(self@.text, self@.sent.take(item as int)),
                position == if item == 0 { 0 } else { self@.sent[item - 1].1 as int },
            decreases self@.sent.len() - item,
        {
            let (start, end) = self.sent[item];
            let ghost before = runs@;
            proof {
                let taken = self@.sent.take(item as int + 1);
                assert(taken.drop_last() =~= self@.sent.take(item as int));
                assert(taken.last() == self@.sent[item as int]);
                if item > 0 {
                    assert(taken[taken.len() - 2] == self@.sent[item - 1]);
                }
                assert(self@.sent[item as int].0 < self@.sent[item as int].1 <= length);
                if item > 0 {
                    assert(self@.sent[item - 1].1 < self@.sent[item as int].0);
                }
            }
            if start > position {
                runs.push((false, string_of(self.text.as_slice(), position, start)));
            }
            runs.push((true, string_of(self.text.as_slice(), start, end)));
            proof {
                let taken = self@.sent.take(item as int + 1);
                let gap = if start > position {
                    seq![(false, self@.text.subrange(position as int, start as int))]
                } else {
                    Seq::empty()
                };
                assert(runs_view(runs@) =~= runs_view(before) + gap + seq![
                    (true, self@.text.subrange(start as int, end as int)),
                ]);
                assert(leading_runs(self@.text, taken) == leading_runs(
                    self@.text,
                    self@.sent.take(item as int),
                ) + gap + seq![(true, self@.text.subrange(start as int, end as int))]);
            }
            position = end;
            item += 1;
        }
        proof {
            assert(self@.sent.take(item as int) =~= self@.sent);
        }
        if position < length {
            let ghost before = runs@;
            runs.push((false, string_of(self.text.as_slice(), position, length)));
            proof {
                assert(runs_view(runs@) =~= runs_view(before) + seq![
                    (false, self@.text.subrange(position as int, length as int)),
                ]);
            }
        } else {
            proof {
                assert(leading_runs(self@.text, self@.sent) + Seq::<(bool, Seq<char>)>::empty()
                    =~= leading_runs(self@.text, self@.sent));
            }
        }
        proof {
            lemma_runs_are_the_transcript(self@);
            lemma_runs_alternate(self@);
        }
        runs
    }
}

/// The text one decode path has printed, and which of it this station sent.
#[derive(Debug)]
pub struct Scrollback {
    held: Held,
}

impl View for Scrollback {
    type V = Transcript;

    closed spec fn view(&self) -> Transcript {
        self.held@
    }
}

impl Clone for Scrollback {
    fn clone(&self) -> (copy: Self)
        ensures
            copy@ == self@,
    {
        proof {
            use_type_invariant(self);
        }
        Scrollback { held: self.held.duplicate() }
    }
}

impl Default for Scrollback {
    fn default() -> (scrollback: Self)
        ensures
            scrollback@.text.len() == 0,
            scrollback@.sent.len() == 0,
            !scrollback@.pending_break,
            scrollback.wf(),
    {
        Scrollback { held: Held::empty() }
    }
}

impl Scrollback {
    #[verifier::type_invariant]
    spec fn inv(&self) -> bool {
        self.held.wf()
    }

    /// Whether this scrollback is in a state its own operations leave it in.
    pub open spec fn wf(&self) -> bool {
        transcript_ok(self@) && no_blank_line(self@.text)
    }

    /// Prints what a decode path decoded.
    pub fn push_str(&mut self, text: &str)
        ensures
            final(self).wf(),
            final(self)@ == pushed_all(old(self)@, text@, false),
    {
        self.push_all(text, false);
    }

    /// Prints what this station has actually put on the air.
    pub fn push_sent(&mut self, text: &str)
        ensures
            final(self).wf(),
            final(self)@ == pushed_all(old(self)@, text@, true),
    {
        self.push_all(text, true);
    }

    fn push_all(&mut self, text: &str, sent: bool)
        ensures
            final(self).wf(),
            final(self)@ == pushed_all(old(self)@, text@, sent),
    {
        proof {
            use_type_invariant(&*self);
        }
        let mut held = Held::empty();
        std::mem::swap(&mut held, &mut self.held);
        held.push_all(text, sent);
        self.held = held;
    }

    /// Forgets everything printed.
    pub fn clear(&mut self)
        ensures
            final(self)@.text.len() == 0,
            final(self)@.sent.len() == 0,
            !final(self)@.pending_break,
            final(self).wf(),
    {
        self.held = Held::empty();
    }

    /// Everything printed so far.
    pub fn text(&self) -> (text: String)
        ensures
            text@ == self@.text,
    {
        string_of(self.held.text.as_slice(), 0, self.held.text.len())
    }

    pub fn is_empty(&self) -> (empty: bool)
        ensures
            empty == (self@.text.len() == 0),
    {
        self.held.text.len() == 0
    }

    /// The transcript split into runs, each marked with whether it was sent.
    pub fn runs(&self) -> (runs: Vec<(bool, String)>)
        ensures
            self.wf(),
            runs_view(runs@) == transcript_runs(self@),
            joined(runs_view(runs@)) == self@.text,
            alternating(runs_view(runs@)),
            sent_runs(runs_view(runs@)) == sent_texts(self@.text, self@.sent),
    {
        proof {
            use_type_invariant(self);
        }
        self.held.runs()
    }
}

} // verus!
