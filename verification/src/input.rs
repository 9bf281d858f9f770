//! What may be typed into a field whose contents go on the air.
//!
//! A keystroke with no code is simply not added; pasted and expanded text is
//! kept whole and its refused characters are drawn apart, so nothing is lost
//! without the operator seeing it.

use vstd::prelude::*;

use crate::scrollback::joined;
use crate::text::{chars_of, push_char, string_of};

verus! {

/// Whether the ITA2 code, in the Bell teleprinter's figures table, has a code
/// for `c`; lower-case letters are keyed as their capitals.
pub open spec fn ita2_has_code(c: char) -> bool {
    ||| ('A' <= c && c <= 'Z')
    ||| ('a' <= c && c <= 'z')
    ||| ('0' <= c && c <= '9')
    ||| c == ' ' || c == '-' || c == '?' || c == ':' || c == '$' || c == '!' || c == '&'
    ||| c == '#' || c == '\'' || c == '(' || c == ')' || c == '.' || c == ',' || c == ';'
    ||| c == '"' || c == '/'
}

/// Whether the transmitter can send `c`.
///
/// The line endings are sendable although no single code carries them: the
/// encoder turns a line feed into the carriage return and line feed pair.
pub open spec fn sendable(c: char) -> bool {
    c == '\n' || c == '\r' || ita2_has_code(c)
}

/// `c` upper cased the way ASCII is, leaving everything else alone.
pub open spec fn ascii_upper(c: char) -> char {
    if 'a' <= c && c <= 'z' {
        ((c as u32) - 32) as char
    } else {
        c
    }
}

/// Text brought into the shape the field holds: upper cased, each line ending
/// reduced to one line feed, and everything else kept.
pub open spec fn normalized(s: Seq<char>) -> Seq<char>
    decreases s.len(),
{
    if s.len() == 0 {
        Seq::empty()
    } else if s[0] == '\r' {
        if s.len() > 1 && s[1] == '\n' {
            seq!['\n'] + normalized(s.skip(2))
        } else {
            seq!['\n'] + normalized(s.skip(1))
        }
    } else {
        seq![ascii_upper(s[0])] + normalized(s.skip(1))
    }
}

/// What a keystroke leaves in the field: its characters upper cased, less
/// those that cannot be sent.
pub open spec fn typed_text(s: Seq<char>) -> Seq<char>
    decreases s.len(),
{
    if s.len() == 0 {
        Seq::empty()
    } else {
        let c = ascii_upper(s.last());
        typed_text(s.drop_last()) + if sendable(c) { seq![c] } else { Seq::empty() }
    }
}

/// Whether `runs` splits `s` into runs that are each wholly sendable or wholly
/// not, with no two neighbours alike.
pub open spec fn sendable_runs(s: Seq<char>, runs: Seq<(bool, Seq<char>)>) -> bool {
    &&& joined(runs) == s
    &&& forall|i: int| #![trigger runs[i]] 0 <= i < runs.len() ==> runs[i].1.len() > 0
    &&& forall|i: int, j: int|
        #![trigger runs[i].1[j]]
        0 <= i < runs.len() && 0 <= j < runs[i].1.len() ==> sendable(runs[i].1[j]) == runs[i].0
    &&& forall|i: int| #![trigger runs[i]] 0 < i < runs.len() ==> runs[i].0 != runs[i - 1].0
}

/// Whether the transmitter has a code for `character`.
pub fn is_sendable(character: char) -> (sendable_: bool)
    ensures
        sendable_ == sendable(character),
{
    match character {
        '\n' | '\r' | ' ' | '-' | '?' | ':' | '$' | '!' | '&' | '#' | '\'' | '(' | ')' | '.' | ','
        | ';' | '"' | '/' => true,
        'A'..='Z' | 'a'..='z' | '0'..='9' => true,
        _ => false,
    }
}

fn to_ascii_upper(character: char) -> (upper: char)
    ensures
        upper == ascii_upper(character),
{
    if 'a' <= character && character <= 'z' {
        let code = character as u32;
        let upper = ((code - 32) as u8) as char;
        upper
    } else {
        character
    }
}

/// The first character of `text` that could not be sent.
pub fn first_unsendable(text: &str) -> (refused: Option<char>)
    ensures
        refused is None ==> forall|i: int| 0 <= i < text@.len() ==> sendable(#[trigger] text@[i]),
        refused matches Some(c) ==> exists|i: int|
            0 <= i < text@.len() && text@[i] == c && !sendable(c) && forall|j: int|
                0 <= j < i ==> sendable(#[trigger] text@[j]),
{
    let characters = chars_of(text);
    let mut index: usize = 0;
    while index < characters.len()
        invariant
            characters@ == text@,
            index <= characters@.len(),
            forall|j: int| 0 <= j < index ==> sendable(#[trigger] text@[j]),
        decreases characters@.len() - index,
    {
        if !is_sendable(characters[index]) {
            return Some(characters[index]);
        }
        index += 1;
    }
    None
}

/// Brings text arriving in a block into the shape the field holds.
pub fn normalize(text: &str) -> (shaped: String)
    ensures
        shaped@ == normalized(text@),
{
    let characters = chars_of(text);
    let length = characters.len();
    let mut out = String::new();
    let mut index: usize = 0;
    proof {
        assert(text@.skip(0) =~= text@);
        assert(out@ + normalized(text@) =~= normalized(text@));
    }
    while index < length
        invariant
            characters@ == text@,
            length == text@.len(),
            index <= length,
            normalized(text@) == out@ + normalized(text@.skip(index as int)),
        decreases length - index,
    {
        let ghost rest = text@.skip(index as int);
        let character = characters[index];
        if character == '\r' {
            push_char(&mut out, '\n');
            if index + 1 < length && characters[index + 1] == '\n' {
                proof {
                    assert(rest.skip(2) =~= text@.skip(index as int + 2));
                }
                index += 2;
            } else {
                proof {
                    assert(rest.skip(1) =~= text@.skip(index as int + 1));
                }
                index += 1;
            }
        } else {
            push_char(&mut out, to_ascii_upper(character));
            proof {
                assert(rest.skip(1) =~= text@.skip(index as int + 1));
            }
            index += 1;
        }
        proof {
            assert(out@ + normalized(text@.skip(index as int)) =~= out@.drop_last() + (seq![
                out@.last(),
            ] + normalized(text@.skip(index as int))));
        }
    }
    proof {
        assert(text@.skip(length as int) =~= Seq::<char>::empty());
        assert(out@ + Seq::<char>::empty() =~= out@);
    }
    out
}

/// Drops what a keystroke cannot put on the air, and upper cases the rest.
pub fn typed(text: &str) -> (kept: String)
    ensures
        kept@ == typed_text(text@),
{
    let characters = chars_of(text);
    let mut out = String::new();
    let mut index: usize = 0;
    while index < characters.len()
        invariant
            characters@ == text@,
            index <= characters@.len(),
            out@ == typed_text(text@.take(index as int)),
        decreases characters@.len() - index,
    {
        let upper = to_ascii_upper(characters[index]);
        proof {
            assert(text@.take(index as int + 1).drop_last() =~= text@.take(index as int));
        }
        if is_sendable(upper) {
            push_char(&mut out, upper);
        } else {
            proof {
                assert(out@ + Seq::<char>::empty() =~= out@);
            }
        }
        index += 1;
    }
    proof {
        assert(text@.take(characters@.len() as int) =~= text@);
    }
    out
}

/// Splits `text` into runs that are all sendable or all not.
pub fn runs(text: &str) -> (runs: Vec<(bool, String)>)
    ensures
        sendable_runs(text@, crate::scrollback::runs_view(runs@)),
{
    let characters = chars_of(text);
    let length = characters.len();
    let mut runs: Vec<(bool, String)> = Vec::new();
    if length == 0 {
        proof {
            assert(crate::scrollback::runs_view(runs@) =~= Seq::empty());
            assert(joined(Seq::<(bool, Seq<char>)>::empty()) == Seq::<char>::empty());
            assert(text@ =~= Seq::<char>::empty());
        }
        return runs;
    }
    let mut start: usize = 0;
    let mut current = is_sendable(characters[0]);
    let mut index: usize = 1;
    while index < length
        invariant
            characters@ == text@,
            length == text@.len(),
            0 <= start < index <= length,
            joined(crate::scrollback::runs_view(runs@)) == text@.take(start as int),
            forall|i: int|
                #![trigger runs@[i]]
                0 <= i < runs@.len() ==> runs@[i].1@.len() > 0,
            forall|i: int, j: int|
                #![trigger runs@[i].1@[j]]
                0 <= i < runs@.len() && 0 <= j < runs@[i].1@.len() ==> sendable(runs@[i].1@[j])
                    == runs@[i].0,
            forall|i: int| #![trigger runs@[i]] 0 < i < runs@.len() ==> runs@[i].0 != runs@[i - 1].0,
            runs@.len() > 0 ==> runs@.last().0 != current,
            forall|j: int| start <= j < index ==> sendable(#[trigger] text@[j]) == current,
        decreases length - index,
    {
        let sendable_now = is_sendable(characters[index]);
        if sendable_now != current {
            let ghost before = runs@;
            let piece = string_of(characters.as_slice(), start, index);
            runs.push((current, piece));
            proof {
                let view = crate::scrollback::runs_view(runs@);
                assert(view =~= crate::scrollback::runs_view(before).push(
                    (current, text@.subrange(start as int, index as int)),
                ));
                assert(view.drop_last() =~= crate::scrollback::runs_view(before));
                assert(text@.take(start as int) + text@.subrange(start as int, index as int)
                    =~= text@.take(index as int));
                assert forall|i: int, j: int|
                    0 <= i < runs@.len() && 0 <= j < runs@[i].1@.len() implies #[trigger] sendable(
                    runs@[i].1@[j]) == runs@[i].0 by {
                    if i == runs@.len() - 1 {
                        assert(runs@[i].1@[j] == text@[start + j]);
                    } else {
                        assert(runs@[i] == before[i]);
                    }
                }
            }
            start = index;
            current = sendable_now;
        }
        index += 1;
    }
    let ghost before = runs@;
    let piece = string_of(characters.as_slice(), start, length);
    runs.push((current, piece));
    proof {
        let view = crate::scrollback::runs_view(runs@);
        assert(view =~= crate::scrollback::runs_view(before).push(
            (current, text@.subrange(start as int, length as int)),
        ));
        assert(view.drop_last() =~= crate::scrollback::runs_view(before));
        assert(text@.take(start as int) + text@.subrange(start as int, length as int) =~= text@);
        assert forall|i: int, j: int|
            0 <= i < view.len() && 0 <= j < view[i].1.len() implies #[trigger] sendable(
            view[i].1[j]) == view[i].0 by {
            if i == runs@.len() - 1 {
                assert(view[i].1[j] == text@[start + j]);
            } else {
                assert(runs@[i] == before[i]);
            }
        }
    }
    runs
}

/// Writes `insertion` into `text` at character position `caret`, or at the
/// end when the caret is past it, and returns the text with the caret after
/// what was written: a macro pressed mid-message leaves the operator where
/// they would have typed next.
pub fn insert_at(text: &str, caret: usize, insertion: &str) -> (written: (String, usize))
    requires
        text@.len() + insertion@.len() <= usize::MAX,
    ensures
        ({
            let at = if caret < text@.len() { caret as int } else { text@.len() as int };
            &&& written.0@ == text@.take(at) + insertion@ + text@.skip(at)
            &&& written.1 == at + insertion@.len()
        }),
{
    let characters = chars_of(text);
    let at = if caret < characters.len() {
        caret
    } else {
        characters.len()
    };
    let mut out = string_of(characters.as_slice(), 0, at);
    out.append(insertion);
    let rest = string_of(characters.as_slice(), at, characters.len());
    out.append(rest.as_str());
    proof {
        assert(characters@.subrange(0, at as int) =~= text@.take(at as int));
        assert(characters@.subrange(at as int, characters@.len() as int) =~= text@.skip(at as int));
    }
    (out, at + insertion.unicode_len())
}

/// A keystroke never leaves a character in the field that cannot be sent.
pub proof fn lemma_typed_text_is_sendable(s: Seq<char>)
    ensures
        forall|i: int| 0 <= i < typed_text(s).len() ==> sendable(#[trigger] typed_text(s)[i]),
    decreases s.len(),
{
    if s.len() > 0 {
        lemma_typed_text_is_sendable(s.drop_last());
        let c = ascii_upper(s.last());
        let before = typed_text(s.drop_last());
        let tail = if sendable(c) { seq![c] } else { Seq::<char>::empty() };
        assert forall|i: int| 0 <= i < typed_text(s).len() implies sendable(#[trigger] typed_text(s)[i]) by {
            if i < before.len() {
                assert(typed_text(s)[i] == before[i]);
            } else {
                assert(typed_text(s)[i] == tail[i - before.len()]);
            }
        }
    }
}

/// Bringing text into shape never turns one character into two: upper
/// casing folds ASCII alone, and a line ending only ever shrinks.
pub proof fn lemma_normalized_is_never_longer(s: Seq<char>)
    ensures
        normalized(s).len() <= s.len(),
    decreases s.len(),
{
    if s.len() > 0 {
        if s[0] == '\r' && s.len() > 1 && s[1] == '\n' {
            lemma_normalized_is_never_longer(s.skip(2));
        } else {
            lemma_normalized_is_never_longer(s.skip(1));
        }
    }
}

/// Every character of every run is a character of the text the runs join to.
proof fn lemma_run_characters_are_in_the_text(runs: Seq<(bool, Seq<char>)>, i: int, j: int)
    requires
        0 <= i < runs.len(),
        0 <= j < runs[i].1.len(),
    ensures
        joined(runs).contains(runs[i].1[j]),
    decreases runs.len(),
{
    let before = joined(runs.drop_last());
    let last = runs.last().1;
    assert(joined(runs) == before + last);
    if i == runs.len() - 1 {
        assert(joined(runs)[before.len() + j] == last[j]);
    } else {
        assert(runs.drop_last()[i] == runs[i]);
        lemma_run_characters_are_in_the_text(runs.drop_last(), i, j);
        let k = choose|k: int| 0 <= k < before.len() && before[k] == runs[i].1[j];
        assert(joined(runs)[k] == before[k]);
    }
}

/// Text with nothing wrong in it is laid out as one run, so a message that
/// can all be sent does not pay for the check.
pub proof fn lemma_sendable_text_is_one_run(s: Seq<char>, runs: Seq<(bool, Seq<char>)>)
    requires
        s.len() > 0,
        forall|i: int| 0 <= i < s.len() ==> sendable(#[trigger] s[i]),
        sendable_runs(s, runs),
    ensures
        runs == seq![(true, s)],
{
    if runs.len() == 0 {
        assert(joined(runs) == Seq::<char>::empty());
    }
    assert forall|i: int| 0 <= i < runs.len() implies #[trigger] runs[i].0 by {
        lemma_run_characters_are_in_the_text(runs, i, 0);
        let k = choose|k: int| 0 <= k < s.len() && s[k] == runs[i].1[0];
        assert(sendable(s[k]));
        assert(sendable(runs[i].1[0]) == runs[i].0);
    }
    if runs.len() > 1 {
        assert(runs[1].0 != runs[0].0);
    }
    assert(runs.len() == 1);
    assert(runs.drop_last() =~= Seq::<(bool, Seq<char>)>::empty());
    assert(joined(runs) == joined(runs.drop_last()) + runs[0].1);
    assert(joined(Seq::<(bool, Seq<char>)>::empty()) == Seq::<char>::empty());
    assert(runs[0].1 =~= s);
    assert(runs[0].0);
    assert(runs[0] == (true, s));
    assert(runs =~= seq![(true, s)]);
}

} // verus!
