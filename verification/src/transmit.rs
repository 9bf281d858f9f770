//! What the operator is writing, what is queued behind it, and what is on air.
//!
//! A small machine of its own: a draft becomes a queued message, a queued
//! message becomes a transmission, and a transmission gives its unsent
//! remainder back.

use vstd::prelude::*;

use crate::input::{first_unsendable, sendable};
use crate::scrollback::{is_whitespace, whitespace};
use crate::text::{chars_of, push_char, string_of};

verus! {

/// How much of a message has left for the rig.
#[derive(Clone, Copy, Debug, PartialEq, Eq, Structural)]
pub struct SentProgress {
    /// Characters of the message that have finished going out.
    pub sent: usize,
    /// Characters in the message altogether.
    pub total: usize,
}

impl Default for SentProgress {
    fn default() -> (progress: Self)
        ensures
            progress.sent == 0 && progress.total == 0,
    {
        SentProgress { sent: 0, total: 0 }
    }
}

/// How many of the character ends lie at or before `played`.
pub open spec fn count_ended(ends: Seq<u64>, played: u64) -> nat
    decreases ends.len(),
{
    if ends.len() == 0 {
        0
    } else {
        count_ended(ends.drop_last(), played) + if ends.last() <= played { 1nat } else { 0nat }
    }
}

pub proof fn lemma_count_ended_bounded(ends: Seq<u64>, played: u64)
    ensures
        count_ended(ends, played) <= ends.len(),
    decreases ends.len(),
{
    if ends.len() > 0 {
        lemma_count_ended_bounded(ends.drop_last(), played);
    }
}

/// More audio played never takes a character back.
pub proof fn lemma_count_ended_monotonic(ends: Seq<u64>, earlier: u64, later: u64)
    requires
        earlier <= later,
    ensures
        count_ended(ends, earlier) <= count_ended(ends, later),
    decreases ends.len(),
{
    if ends.len() > 0 {
        lemma_count_ended_monotonic(ends.drop_last(), earlier, later);
    }
}

/// Where each character of a message lands in its audio.
///
/// `ends[i]` is the sample at which the `i`th character has finished going
/// out; `total_samples` is the length of the whole transmission.
#[derive(Clone, Debug)]
pub struct Schedule {
    ends: Vec<u64>,
    total_samples: u64,
}

impl Schedule {
    pub fn new(ends: Vec<u64>, total_samples: u64) -> (schedule: Self)
        ensures
            schedule.ends_spec() == ends@,
            schedule.total_spec() == total_samples,
    {
        Schedule { ends, total_samples }
    }

    pub closed spec fn ends_spec(&self) -> Seq<u64> {
        self.ends@
    }

    pub closed spec fn total_spec(&self) -> u64 {
        self.total_samples
    }

    /// How many characters have finished by sample `played`.
    pub fn characters_sent_by(&self, played: u64) -> (sent: usize)
        ensures
            sent == count_ended(self.ends_spec(), played),
            sent <= self.ends_spec().len(),
    {
        let mut count: usize = 0;
        let mut index: usize = 0;
        while index < self.ends.len()
            invariant
                index <= self.ends@.len(),
                count == count_ended(self.ends@.take(index as int), played),
                count <= index,
            decreases self.ends@.len() - index,
        {
            proof {
                assert(self.ends@.take(index as int + 1).drop_last() =~= self.ends@.take(
                    index as int,
                ));
            }
            if self.ends[index] <= played {
                count += 1;
            }
            index += 1;
        }
        proof {
            assert(self.ends@.take(index as int) =~= self.ends@);
        }
        count
    }

    pub fn character_count(&self) -> (count: usize)
        ensures
            count == self.ends_spec().len(),
    {
        self.ends.len()
    }

    pub fn total_samples(&self) -> (total: u64)
        ensures
            total == self.total_spec(),
    {
        self.total_samples
    }
}

/// How far the echo has got once `sent` characters have been played.
pub open spec fn clamp_to(n: int, len: int) -> int {
    if n < len {
        n
    } else {
        len
    }
}

/// What an echo hands over: the characters from `echoed` up to `sent`.
pub open spec fn echo_text(text: Seq<char>, echoed: int, sent: int) -> Seq<char> {
    let end = clamp_to(sent, text.len() as int);
    text.subrange(clamp_to(echoed, end), end)
}

/// The message on the air, and where its characters land in the audio.
#[derive(Clone, Debug)]
pub struct Sending {
    text: String,
    schedule: Schedule,
    /// How many characters have been handed to the received text.
    echoed: usize,
}

impl Sending {
    pub closed spec fn text_spec(&self) -> Seq<char> {
        self.text@
    }

    pub closed spec fn schedule_spec(&self) -> Schedule {
        self.schedule
    }

    pub closed spec fn echoed_spec(&self) -> nat {
        self.echoed as nat
    }

    /// The characters played by sample `played`.
    pub open spec fn sent_by(&self, played: u64) -> nat {
        count_ended(self.schedule_spec().ends_spec(), played)
    }

    pub fn new(text: String, schedule: Schedule) -> (sending: Self)
        ensures
            sending.text_spec() == text@,
            sending.schedule_spec() == schedule,
            sending.echoed_spec() == 0,
    {
        Sending { text, schedule, echoed: 0 }
    }

    pub fn text(&self) -> (text: &str)
        ensures
            text@ == self.text_spec(),
    {
        self.text.as_str()
    }

    pub fn progress(&self, played_samples: u64) -> (progress: SentProgress)
        ensures
            progress.sent == self.sent_by(played_samples),
            progress.total == self.schedule_spec().ends_spec().len(),
            progress.sent <= progress.total,
    {
        SentProgress {
            sent: self.schedule.characters_sent_by(played_samples),
            total: self.schedule.character_count(),
        }
    }

    /// The characters played since this was last asked, for the echo.
    pub fn take_echo(&mut self, played_samples: u64) -> (echo: Option<String>)
        ensures
            final(self).text_spec() == old(self).text_spec(),
            final(self).schedule_spec() == old(self).schedule_spec(),
            old(self).sent_by(played_samples) <= old(self).echoed_spec() ==> echo is None
                && final(self).echoed_spec() == old(self).echoed_spec(),
            old(self).sent_by(played_samples) > old(self).echoed_spec() ==> (echo matches Some(t)
                && t@ == echo_text(
                old(self).text_spec(),
                old(self).echoed_spec() as int,
                old(self).sent_by(played_samples) as int,
            ) && final(self).echoed_spec() == old(self).sent_by(played_samples)),
    {
        let sent = self.schedule.characters_sent_by(played_samples);
        if sent <= self.echoed {
            return None;
        }
        let characters = chars_of(self.text.as_str());
        let end = if sent < characters.len() {
            sent
        } else {
            characters.len()
        };
        let start = if self.echoed < end {
            self.echoed
        } else {
            end
        };
        let text = string_of(characters.as_slice(), start, end);
        self.echoed = sent;
        Some(text)
    }

    /// Everything that has not been played, for a transmission cut short.
    pub fn unsent(&self, played_samples: u64) -> (rest: String)
        ensures
            rest@ == self.text_spec().skip(
                clamp_to(self.sent_by(played_samples) as int, self.text_spec().len() as int),
            ),
    {
        let sent = self.schedule.characters_sent_by(played_samples);
        let characters = chars_of(self.text.as_str());
        let start = if sent < characters.len() {
            sent
        } else {
            characters.len()
        };
        let rest = string_of(characters.as_slice(), start, characters.len());
        proof {
            assert(characters@.subrange(start as int, characters@.len() as int) =~= self.text@.skip(
                start as int,
            ));
        }
        rest
    }

    /// How much of the whole transmission is left, in samples.
    pub fn remaining_samples(&self, played_samples: u64) -> (left: u64)
        ensures
            left == if played_samples <= self.schedule_spec().total_spec() {
                (self.schedule_spec().total_spec() - played_samples) as u64
            } else {
                0u64
            },
    {
        let total = self.schedule.total_samples();
        if played_samples <= total {
            total - played_samples
        } else {
            0
        }
    }
}

/// The echoes taken at two moments, one after the other, hand over the
/// characters played by the later moment that had not been handed over before
/// the first, each exactly once.
pub proof fn lemma_echo_hands_over_each_character_once(
    text: Seq<char>,
    ends: Seq<u64>,
    echoed: nat,
    first: u64,
    second: u64,
)
    requires
        first <= second,
    ensures
        ({
            let sent_first = count_ended(ends, first);
            let after_first = if sent_first > echoed { sent_first } else { echoed };
            let sent_second = count_ended(ends, second);
            let taken_first = if sent_first > echoed {
                echo_text(text, echoed as int, sent_first as int)
            } else {
                Seq::empty()
            };
            let taken_second = if sent_second > after_first {
                echo_text(text, after_first as int, sent_second as int)
            } else {
                Seq::empty()
            };
            taken_first + taken_second == echo_text(
                text,
                echoed as int,
                if sent_second > echoed { sent_second as int } else { echoed as int },
            )
        }),
{
    lemma_count_ended_monotonic(ends, first, second);
    let sent_first = count_ended(ends, first);
    let sent_second = count_ended(ends, second);
    let len = text.len() as int;
    if sent_first > echoed {
        if sent_second > sent_first {
            assert(text.subrange(clamp_to(echoed as int, clamp_to(sent_first as int, len)), clamp_to(
                sent_first as int,
                len,
            )) + text.subrange(
                clamp_to(sent_first as int, clamp_to(sent_second as int, len)),
                clamp_to(sent_second as int, len),
            ) =~= text.subrange(
                clamp_to(echoed as int, clamp_to(sent_second as int, len)),
                clamp_to(sent_second as int, len),
            ));
        } else {
            assert(sent_second == sent_first);
            assert(echo_text(text, echoed as int, sent_first as int) + Seq::<char>::empty()
                =~= echo_text(text, echoed as int, sent_second as int));
        }
    } else {
        if sent_second > echoed {
            assert(Seq::<char>::empty() + echo_text(text, echoed as int, sent_second as int)
                =~= echo_text(text, echoed as int, sent_second as int));
        } else {
            assert(Seq::<char>::empty() + Seq::<char>::empty() =~= echo_text(
                text,
                echoed as int,
                echoed as int,
            ));
        }
    }
}

/// `s` without the line endings at its end.
pub open spec fn without_trailing_breaks(s: Seq<char>) -> Seq<char>
    decreases s.len(),
{
    if s.len() > 0 && (s.last() == '\r' || s.last() == '\n') {
        without_trailing_breaks(s.drop_last())
    } else {
        s
    }
}

/// Text with something other than whitespace in it keeps something once its
/// trailing line endings are gone, line endings being whitespace.
proof fn lemma_content_survives_the_line_endings(s: Seq<char>)
    requires
        has_content(s),
    ensures
        without_trailing_breaks(s).len() > 0,
    decreases s.len(),
{
    if s.len() > 0 && (s.last() == '\r' || s.last() == '\n') {
        let i = choose|i: int| 0 <= i < s.len() && !whitespace(#[trigger] s[i]);
        assert(i < s.len() - 1);
        assert(s.drop_last()[i] == s[i]);
        lemma_content_survives_the_line_endings(s.drop_last());
    }
}

/// Parts joined the way the draft separates lines.
pub open spec fn joined_lines(parts: Seq<Seq<char>>) -> Seq<char>
    decreases parts.len(),
{
    if parts.len() == 0 {
        Seq::empty()
    } else if parts.len() == 1 {
        parts[0]
    } else {
        joined_lines(parts.drop_last()) + seq!['\n'] + parts.last()
    }
}

/// Strings as mathematics.
pub open spec fn texts(strings: Seq<String>) -> Seq<Seq<char>> {
    strings.map_values(|text: String| text@)
}

/// `text` with each line ending shown as a return symbol, for a line that
/// lays a message out on one row.
pub open spec fn with_return_symbols(text: Seq<char>) -> Seq<char> {
    text.map_values(|c: char| if c == '\n' { '\u{23ce}' } else { c })
}

/// The message on the air split where its sent part ends, each part with its
/// line endings shown as return symbols: what has left the rig is drawn
/// underlined, and what has not is drawn weak.
pub fn sent_parts(text: &str, sent: usize) -> (parts: (String, String))
    ensures
        parts.0@ == with_return_symbols(text@.take(clamp_to(sent as int, text@.len() as int))),
        parts.1@ == with_return_symbols(text@.skip(clamp_to(sent as int, text@.len() as int))),
{
    let characters = chars_of(text);
    let boundary = if sent < characters.len() {
        sent
    } else {
        characters.len()
    };
    let mut head = String::new();
    let mut tail = String::new();
    let mut index: usize = 0;
    while index < characters.len()
        invariant
            characters@ == text@,
            boundary == clamp_to(sent as int, text@.len() as int),
            index <= characters@.len(),
            index <= boundary ==> head@ == with_return_symbols(text@.take(index as int))
                && tail@.len() == 0,
            index > boundary ==> head@ == with_return_symbols(text@.take(boundary as int))
                && tail@ == with_return_symbols(text@.subrange(boundary as int, index as int)),
        decreases characters@.len() - index,
    {
        let c = characters[index];
        let shown = if c == '\n' {
            '\u{23ce}'
        } else {
            c
        };
        if index < boundary {
            push_char(&mut head, shown);
            proof {
                assert(with_return_symbols(text@.take(index as int + 1)) =~= with_return_symbols(
                    text@.take(index as int),
                ).push(shown));
            }
        } else {
            push_char(&mut tail, shown);
            proof {
                assert(with_return_symbols(text@.subrange(boundary as int, index as int + 1))
                    =~= with_return_symbols(text@.subrange(boundary as int, index as int)).push(
                    shown,
                ));
            }
        }
        index += 1;
    }
    proof {
        assert(text@.subrange(boundary as int, text@.len() as int) =~= text@.skip(boundary as int));
        assert(with_return_symbols(text@.skip(boundary as int)) =~= with_return_symbols(
            text@.subrange(boundary as int, text@.len() as int),
        ));
        if boundary == text@.len() {
            assert(with_return_symbols(text@.skip(boundary as int)) =~= Seq::<char>::empty());
        }
    }
    (head, tail)
}

/// The longest a queued message is shown, in characters, before it is cut.
pub const ONE_LINE_LIMIT: usize = 60;

/// `text` with each line ending written as a return symbol between spaces.
pub open spec fn flat_breaks(text: Seq<char>) -> Seq<char>
    decreases text.len(),
{
    if text.len() == 0 {
        Seq::empty()
    } else {
        flat_breaks(text.drop_last()) + if text.last() == '\n' {
            seq![' ', '\u{23ce}', ' ']
        } else {
            seq![text.last()]
        }
    }
}

/// A message as one line: its line endings shown as return symbols, and no
/// more than the limit of characters, an ellipsis saying when some were cut.
pub open spec fn one_line_text(message: Seq<char>) -> Seq<char> {
    let flat = flat_breaks(message);
    if flat.len() > ONE_LINE_LIMIT {
        flat.take(ONE_LINE_LIMIT as int).push('\u{2026}')
    } else {
        flat
    }
}

/// A message as one line, for a list that shows what is waiting rather than
/// what it says.
pub fn one_line(message: &str) -> (line: String)
    ensures
        line@ == one_line_text(message@),
{
    let characters = chars_of(message);
    let mut flat: Vec<char> = Vec::new();
    let mut index: usize = 0;
    while index < characters.len()
        invariant
            characters@ == message@,
            index <= characters@.len(),
            flat@ == flat_breaks(characters@.take(index as int)),
        decreases characters@.len() - index,
    {
        proof {
            assert(characters@.take(index as int + 1).drop_last() =~= characters@.take(index as int));
        }
        let c = characters[index];
        if c == '\n' {
            flat.push(' ');
            flat.push('\u{23ce}');
            flat.push(' ');
        } else {
            flat.push(c);
        }
        proof {
            let t = characters@.take(index as int + 1);
            assert(t.last() == c);
            if c == '\n' {
                assert(flat@ =~= flat_breaks(characters@.take(index as int)) + seq![' ', '\u{23ce}', ' ']);
            } else {
                assert(flat@ =~= flat_breaks(characters@.take(index as int)) + seq![c]);
            }
        }
        index += 1;
    }
    proof {
        assert(characters@.take(index as int) =~= message@);
    }
    if flat.len() > ONE_LINE_LIMIT {
        let mut line = string_of(flat.as_slice(), 0, ONE_LINE_LIMIT);
        push_char(&mut line, '\u{2026}');
        proof {
            assert(flat@.subrange(0, ONE_LINE_LIMIT as int) =~= flat@.take(ONE_LINE_LIMIT as int));
        }
        line
    } else {
        let line = string_of(flat.as_slice(), 0, flat.len());
        proof {
            assert(flat@.subrange(0, flat@.len() as int) =~= flat@);
        }
        line
    }
}

/// Whether `text` holds something other than whitespace.
pub open spec fn has_content(text: Seq<char>) -> bool {
    exists|i: int| 0 <= i < text.len() && !whitespace(#[trigger] text[i])
}

/// Whether every character of `text` has a code on the air.
pub open spec fn all_sendable(text: Seq<char>) -> bool {
    forall|i: int| 0 <= i < text.len() ==> sendable(#[trigger] text[i])
}

/// The draft after an aborted transmission hands `unsent` back: the unsent
/// text first, then what the operator had written since, a line apart.
pub open spec fn restored_draft(unsent: Seq<char>, draft: Seq<char>) -> Seq<char> {
    if unsent.len() == 0 {
        draft
    } else if draft.len() == 0 {
        unsent
    } else {
        unsent + seq!['\n'] + draft
    }
}

/// The message key of the notice a refused send shows when there is nowhere
/// to play a transmission out.
pub const NO_OUTPUT: &'static str = "error-no-output";

/// The draft, the queue, and the message being keyed.
#[derive(Debug)]
pub struct Transmit {
    /// What the operator is writing.
    pub draft: String,
    queue: Vec<String>,
    sending: Option<Sending>,
}

impl Default for Transmit {
    fn default() -> (transmit: Self)
        ensures
            transmit.draft_spec().len() == 0,
            transmit.queue_spec().len() == 0,
            transmit.sending_spec() is None,
    {
        Transmit { draft: String::new(), queue: Vec::new(), sending: None }
    }
}

impl Transmit {
    /// What the operator is writing.
    pub closed spec fn draft_spec(&self) -> Seq<char> {
        self.draft@
    }

    /// The messages waiting, in the order they will go out.
    pub closed spec fn queue_spec(&self) -> Seq<Seq<char>> {
        texts(self.queue@)
    }

    /// The message on the air, if one is.
    pub closed spec fn sending_spec(&self) -> Option<Sending> {
        self.sending
    }

    /// Whether there is something to send or something being sent.
    pub open spec fn busy(&self) -> bool {
        self.sending_spec() is Some || self.queue_spec().len() > 0
    }

    /// A transmit state holding `draft` and nothing else.
    pub fn with_draft(draft: String) -> (transmit: Self)
        ensures
            transmit.draft_spec() == draft@,
            transmit.queue_spec().len() == 0,
            transmit.sending_spec() is None,
    {
        Transmit { draft, queue: Vec::new(), sending: None }
    }

    /// Moves the draft into the queue, if there is anything in it once its
    /// trailing line endings are gone.
    ///
    /// Returns whether anything was queued.
    pub fn queue_draft(&mut self) -> (queued: bool)
        ensures
            final(self).sending_spec() == old(self).sending_spec(),
            queued == (without_trailing_breaks(old(self).draft_spec()).len() > 0),
            queued ==> final(self).draft_spec().len() == 0 && final(self).queue_spec() == old(
                self,
            ).queue_spec().push(without_trailing_breaks(old(self).draft_spec())),
            !queued ==> final(self).draft_spec() == old(self).draft_spec() && final(self).queue_spec() == old(
                self,
            ).queue_spec(),
    {
        let characters = chars_of(self.draft.as_str());
        let mut end = characters.len();
        proof {
            assert(characters@.take(end as int) =~= characters@);
        }
        while end > 0 && (characters[end - 1] == '\r' || characters[end - 1] == '\n')
            invariant
                end <= characters@.len(),
                without_trailing_breaks(characters@) == without_trailing_breaks(
                    characters@.take(end as int),
                ),
            decreases end,
        {
            proof {
                assert(characters@.take(end as int).drop_last() =~= characters@.take(end - 1));
            }
            end -= 1;
        }
        proof {
            assert(characters@.take(end as int) =~= characters@.subrange(0, end as int));
        }
        if end == 0 {
            proof {
                assert(characters@.take(0) =~= Seq::<char>::empty());
            }
            return false;
        }
        let text = string_of(characters.as_slice(), 0, end);
        self.draft = String::new();
        self.queue(text);
        true
    }

    /// Queues `text` without touching the draft, for a macro that sends.
    pub fn queue(&mut self, text: String)
        ensures
            final(self).draft_spec() == old(self).draft_spec(),
            final(self).sending_spec() == old(self).sending_spec(),
            final(self).queue_spec() == if text@.len() > 0 {
                old(self).queue_spec().push(text@)
            } else {
                old(self).queue_spec()
            },
    {
        if !text.as_str().is_empty() {
            self.queue.push(text);
            proof {
                assert(texts(self.queue@) =~= texts(old(self).queue@).push(text@));
            }
        }
    }

    /// Takes the next message to key, if nothing is on the air.
    pub fn take_next(&mut self) -> (next: Option<String>)
        ensures
            final(self).draft_spec() == old(self).draft_spec(),
            final(self).sending_spec() == old(self).sending_spec(),
            old(self).sending_spec() is Some || old(self).queue_spec().len() == 0 ==> next is None
                && final(self).queue_spec() == old(self).queue_spec(),
            old(self).sending_spec() is None && old(self).queue_spec().len() > 0 ==> (next matches Some(
                t,
            ) && t@ == old(self).queue_spec()[0] && final(self).queue_spec() == old(
                self,
            ).queue_spec().drop_first()),
    {
        if self.sending.is_some() || self.queue.len() == 0 {
            return None;
        }
        let next = self.queue.remove(0);
        proof {
            assert(texts(self.queue@) =~= texts(old(self).queue@).drop_first());
        }
        Some(next)
    }

    pub fn begin(&mut self, sending: Sending)
        ensures
            final(self).draft_spec() == old(self).draft_spec(),
            final(self).queue_spec() == old(self).queue_spec(),
            final(self).sending_spec() == Some(sending),
    {
        self.sending = Some(sending);
    }

    pub fn sending(&self) -> (sending: Option<&Sending>)
        ensures
            sending matches Some(s) ==> self.sending_spec() == Some(*s),
            sending is None ==> self.sending_spec() is None,
    {
        match &self.sending {
            Some(sending) => Some(sending),
            None => None,
        }
    }

    /// Hands the echo of the message on the air over, if one is on the air.
    pub fn take_echo(&mut self, played_samples: u64) -> (echo: Option<String>)
        ensures
            final(self).draft_spec() == old(self).draft_spec(),
            final(self).queue_spec() == old(self).queue_spec(),
            old(self).sending_spec() is None ==> echo is None && final(self).sending_spec() is None,
            old(self).sending_spec() is Some ==> final(self).sending_spec() is Some,
            old(self).sending_spec() matches Some(s) ==> ({
                let f = final(self).sending_spec()->0;
                &&& f.text_spec() == s.text_spec()
                &&& f.schedule_spec() == s.schedule_spec()
                &&& s.sent_by(played_samples) <= s.echoed_spec() ==> echo is None && f.echoed_spec()
                    == s.echoed_spec()
                &&& s.sent_by(played_samples) > s.echoed_spec() ==> (echo matches Some(t) && t@
                    == echo_text(s.text_spec(), s.echoed_spec() as int, s.sent_by(played_samples) as int)
                    && f.echoed_spec() == s.sent_by(played_samples))
            }),
    {
        match self.sending.take() {
            Some(mut sending) => {
                let echo = sending.take_echo(played_samples);
                self.sending = Some(sending);
                echo
            },
            None => None,
        }
    }

    /// What is still waiting, in the order it will go out.
    pub fn queued(&self) -> (queued: &[String])
        ensures
            texts(queued@) == self.queue_spec(),
    {
        self.queue.as_slice()
    }

    pub fn is_busy(&self) -> (busy: bool)
        ensures
            busy == self.busy(),
    {
        self.sending.is_some() || self.queue.len() > 0
    }

    /// Forgets the message on the air, for one that ended by itself.
    pub fn finish(&mut self)
        ensures
            final(self).draft_spec() == old(self).draft_spec(),
            final(self).queue_spec() == old(self).queue_spec(),
            final(self).sending_spec() is None,
    {
        self.sending = None;
    }

    /// Drops a queued message that has not started.
    pub fn cancel_queued(&mut self, index: usize)
        ensures
            final(self).draft_spec() == old(self).draft_spec(),
            final(self).sending_spec() == old(self).sending_spec(),
            final(self).queue_spec() == if index < old(self).queue_spec().len() {
                old(self).queue_spec().remove(index as int)
            } else {
                old(self).queue_spec()
            },
    {
        if index < self.queue.len() {
            self.queue.remove(index);
            proof {
                assert(texts(self.queue@) =~= texts(old(self).queue@).remove(index as int));
            }
        }
    }

    /// Whether the draft can be sent: it holds something other than
    /// whitespace, every character of it has a code, and there is a device to
    /// play it out on.
    pub fn can_send(&self, has_output: bool) -> (sendable: bool)
        ensures
            sendable == (has_content(self.draft_spec()) && all_sendable(self.draft_spec())
                && has_output),
    {
        let characters = chars_of(self.draft.as_str());
        let mut index: usize = 0;
        let mut content = false;
        while index < characters.len()
            invariant
                characters@ == self.draft@,
                index <= characters@.len(),
                content == exists|i: int| 0 <= i < index && !whitespace(#[trigger] characters@[i]),
            decreases characters@.len() - index,
        {
            if !is_whitespace(characters[index]) {
                content = true;
            }
            index += 1;
        }
        let clean = first_unsendable(self.draft.as_str()).is_none();
        content && clean && has_output
    }

    /// Queues the draft when it can be sent.
    ///
    /// Returns the message key of the notice to show, when the draft was held
    /// for want of a device to play it out on; a draft held for its own sake
    /// says nothing, the field already showing what is wrong with it.
    pub fn send_draft(&mut self, has_output: bool) -> (notice: Option<&'static str>)
        ensures
            ({
                let draft = old(self).draft_spec();
                let sendable = has_content(draft) && all_sendable(draft) && has_output;
                &&& final(self).sending_spec() == old(self).sending_spec()
                &&& sendable ==> notice is None && final(self).draft_spec().len() == 0
                    && final(self).queue_spec() == old(self).queue_spec().push(
                    without_trailing_breaks(draft),
                )
                &&& !sendable ==> final(self).draft_spec() == draft && final(self).queue_spec()
                    == old(self).queue_spec()
                &&& !sendable && !has_output ==> (notice matches Some(key) && key@ == NO_OUTPUT@)
                &&& !sendable && has_output ==> notice is None
            }),
    {
        if !self.can_send(has_output) {
            if !has_output {
                return Some(NO_OUTPUT);
            }
            return None;
        }
        proof {
            lemma_content_survives_the_line_endings(self.draft@);
        }
        self.queue_draft();
        None
    }

    /// Queues `text` as a message of its own, leaving the draft alone, when
    /// there is a device to play it out on; returns the message key of the
    /// notice to show when there is not.
    pub fn send_text(&mut self, text: String, has_output: bool) -> (notice: Option<&'static str>)
        ensures
            final(self).draft_spec() == old(self).draft_spec(),
            final(self).sending_spec() == old(self).sending_spec(),
            !has_output ==> (notice matches Some(key) && key@ == NO_OUTPUT@) && final(self).queue_spec()
                == old(self).queue_spec(),
            has_output ==> notice is None && final(self).queue_spec() == if text@.len() > 0 {
                old(self).queue_spec().push(text@)
            } else {
                old(self).queue_spec()
            },
    {
        if !has_output {
            return Some(NO_OUTPUT);
        }
        self.queue(text);
        None
    }

    /// Stops everything and gives the unsent text back to the draft, ahead of
    /// whatever the operator has written since, so it can be edited and sent
    /// again.
    pub fn abort(&mut self, played_samples: u64)
        ensures
            !final(self).busy(),
            final(self).draft_spec() == restored_draft(
                joined_lines(
                    (match old(self).sending_spec() {
                        Some(s) => {
                            let rest = s.text_spec().skip(
                                clamp_to(s.sent_by(played_samples) as int, s.text_spec().len() as int),
                            );
                            if rest.len() > 0 {
                                seq![rest]
                            } else {
                                Seq::empty()
                            }
                        },
                        None => Seq::empty(),
                    }) + old(self).queue_spec(),
                ),
                old(self).draft_spec(),
            ),
    {
        let unsent = self.abandon(played_samples);
        self.restore(unsent);
    }

    /// Hands a message that was taken off the queue but could not be started
    /// back to the draft, with everything queued behind it, ahead of whatever
    /// the operator has written since: it has already left the queue, and
    /// dropping it there would lose text the operator wrote.
    pub fn give_back(&mut self, message: String)
        ensures
            final(self).sending_spec() == old(self).sending_spec(),
            final(self).queue_spec().len() == 0,
            final(self).draft_spec() == restored_draft(
                joined_lines(
                    (if message@.len() > 0 {
                        seq![message@]
                    } else {
                        Seq::empty()
                    }) + old(self).queue_spec(),
                ),
                old(self).draft_spec(),
            ),
    {
        let unsent = self.abandon_queue(message);
        self.restore(unsent);
    }

    /// Puts `unsent` back in front of the draft.
    fn restore(&mut self, unsent: String)
        ensures
            final(self).sending_spec() == old(self).sending_spec(),
            final(self).queue_spec() == old(self).queue_spec(),
            final(self).draft_spec() == restored_draft(unsent@, old(self).draft_spec()),
    {
        if unsent.as_str().is_empty() {
            return;
        }
        if self.draft.as_str().is_empty() {
            self.draft = unsent;
        } else {
            let mut draft = unsent;
            push_char(&mut draft, '\n');
            draft.append(self.draft.as_str());
            self.draft = draft;
        }
    }

    /// Gives up everything and hands back what was never sent.
    ///
    /// The remainder of the message on the air comes first, then whatever was
    /// queued behind it, separated the way the draft separates lines.
    pub fn abandon(&mut self, played_samples: u64) -> (unsent: String)
        ensures
            final(self).draft_spec() == old(self).draft_spec(),
            !final(self).busy(),
            unsent@ == joined_lines(
                (match old(self).sending_spec() {
                    Some(s) => {
                        let rest = s.text_spec().skip(
                            clamp_to(s.sent_by(played_samples) as int, s.text_spec().len() as int),
                        );
                        if rest.len() > 0 {
                            seq![rest]
                        } else {
                            Seq::empty()
                        }
                    },
                    None => Seq::empty(),
                }) + old(self).queue_spec(),
            ),
    {
        let unsent = match self.sending.take() {
            Some(sending) => sending.unsent(played_samples),
            None => String::new(),
        };
        self.abandon_queue(unsent)
    }

    /// Hands back `leading` and everything still queued behind it.
    pub fn abandon_queue(&mut self, leading: String) -> (unsent: String)
        ensures
            final(self).draft_spec() == old(self).draft_spec(),
            final(self).sending_spec() == old(self).sending_spec(),
            final(self).queue_spec().len() == 0,
            unsent@ == joined_lines(
                (if leading@.len() > 0 {
                    seq![leading@]
                } else {
                    Seq::empty()
                }) + old(self).queue_spec(),
            ),
    {
        let ghost parts = (if leading@.len() > 0 {
            seq![leading@]
        } else {
            Seq::empty()
        }) + old(self).queue_spec();
        let mut out = String::new();
        let lead = !leading.as_str().is_empty();
        let ghost lead_count: int = if lead { 1 } else { 0 };
        if lead {
            out.append(leading.as_str());
            proof {
                assert(parts.take(1) =~= seq![leading@]);
                assert(seq![leading@].drop_last() =~= Seq::<Seq<char>>::empty());
            }
        } else {
            proof {
                assert(parts.take(0) =~= Seq::<Seq<char>>::empty());
                assert(out@ =~= Seq::<char>::empty());
            }
        }
        let mut index: usize = 0;
        while index < self.queue.len()
            invariant
                self.queue@ == old(self).queue@,
                self.draft == old(self).draft,
                self.sending == old(self).sending,
                lead == (leading@.len() > 0),
                lead_count == if lead { 1int } else { 0int },
                parts == (if leading@.len() > 0 {
                    seq![leading@]
                } else {
                    Seq::empty()
                }) + texts(self.queue@),
                index <= self.queue@.len(),
                out@ == joined_lines(parts.take(lead_count + index)),
            decreases self.queue@.len() - index,
        {
            proof {
                assert(parts.take(lead_count + index + 1).drop_last() =~= parts.take(lead_count + index));
                assert(parts[lead_count + index] == self.queue@[index as int]@);
            }
            if lead || index > 0 {
                push_char(&mut out, '\n');
            }
            out.append(self.queue[index].as_str());
            proof {
                if !lead && index == 0 {
                    assert(out@ =~= self.queue@[index as int]@);
                }
            }
            index += 1;
        }
        proof {
            assert(parts.take(lead_count + index) =~= parts);
        }
        self.queue = Vec::new();
        proof {
            assert(texts(self.queue@) =~= Seq::<Seq<char>>::empty());
        }
        out
    }
}

} // verus!
