//! What the WEFAX receiver reports: where a reception has got to, and the
//! columns of the strip it has decoded since the interface last looked.

use vstd::prelude::*;

use crate::text::{decimal_text, push_decimal};

verus! {

/// What the receiver is currently doing, as the interface says it.
#[derive(Clone, Copy, Debug, PartialEq, Eq, Structural)]
pub enum RxProgress {
    /// No signal has been identified, and no start was asked for.
    Idle,
    /// A start tone is being held.
    Starting,
    /// The phasing signal is being folded.
    Phasing,
    /// Lines are being drawn.
    Imaging { lines: usize },
    /// A stop tone ended the transmission.
    Complete { lines: usize },
    /// Reception ended for some other reason.
    Stopped { lines: usize },
}

/// The lines a reception has drawn, as the progress reports them.
pub open spec fn progress_lines(progress: RxProgress) -> usize {
    match progress {
        RxProgress::Idle | RxProgress::Starting | RxProgress::Phasing => 0,
        RxProgress::Imaging { lines } | RxProgress::Complete { lines } | RxProgress::Stopped {
            lines,
        } => lines,
    }
}

/// Whether a picture is being drawn right now.
pub open spec fn progress_active(progress: RxProgress) -> bool {
    progress is Starting || progress is Phasing || progress is Imaging
}

impl Default for RxProgress {
    fn default() -> (progress: Self)
        ensures
            progress is Idle,
    {
        RxProgress::Idle
    }
}

impl RxProgress {
    pub fn lines(self) -> (lines: usize)
        ensures
            lines == progress_lines(self),
    {
        match self {
            RxProgress::Idle | RxProgress::Starting | RxProgress::Phasing => 0,
            RxProgress::Imaging { lines } | RxProgress::Complete { lines } | RxProgress::Stopped {
                lines,
            } => lines,
        }
    }

    /// Whether a picture is being drawn right now.
    pub fn is_active(self) -> (active: bool)
        ensures
            active == progress_active(self),
    {
        match self {
            RxProgress::Starting | RxProgress::Phasing | RxProgress::Imaging { .. } => true,
            _ => false,
        }
    }

    /// The message key the status line says this state with.
    pub fn label_key(self) -> (key: &'static str)
        ensures
            self is Idle ==> key@ == "state-idle"@,
            self is Starting ==> key@ == "state-starting"@,
            self is Phasing ==> key@ == "state-phasing"@,
            self is Imaging ==> key@ == "state-imaging"@,
            self is Complete ==> key@ == "state-complete"@,
            self is Stopped ==> key@ == "state-stopped"@,
    {
        match self {
            RxProgress::Idle => "state-idle",
            RxProgress::Starting => "state-starting",
            RxProgress::Phasing => "state-phasing",
            RxProgress::Imaging { .. } => "state-imaging",
            RxProgress::Complete { .. } => "state-complete",
            RxProgress::Stopped { .. } => "state-stopped",
        }
    }
}

/// A chart's geometry as the status line writes it.
pub open spec fn geometry_text_spec(ioc: nat, lines_per_minute: nat) -> Seq<char> {
    "IOC "@ + decimal_text(ioc) + " / "@ + decimal_text(lines_per_minute) + " LPM"@
}

/// Writes a chart's geometry, its index of cooperation and its lines per
/// minute, for the status line.
pub fn geometry_text(ioc: u32, lines_per_minute: u32) -> (text: String)
    ensures
        text@ == geometry_text_spec(ioc as nat, lines_per_minute as nat),
{
    let mut text = "IOC ".to_owned();
    push_decimal(&mut text, ioc);
    text.append(" / ");
    push_decimal(&mut text, lines_per_minute);
    text.append(" LPM");
    text
}

/// The message the status line says a reception with: the state alone, when
/// no geometry is known; the state and the geometry, before a line is drawn;
/// and the lines drawn as well, after.
pub fn description_key(progress: RxProgress, has_format: bool) -> (key: Option<&'static str>)
    ensures
        !has_format ==> key is None,
        has_format && progress_lines(progress) == 0 ==> (key matches Some(k) && k@
            == "state-with-format"@),
        has_format && progress_lines(progress) > 0 ==> (key matches Some(k) && k@
            == "state-with-lines"@),
{
    if !has_format {
        return None;
    }
    if progress.lines() == 0 {
        Some("state-with-format")
    } else {
        Some("state-with-lines")
    }
}

/// The window title: the application's name, and what the receiver is doing
/// unless it is idle.
pub open spec fn title_text(name: Seq<char>, progress: RxProgress, state: Seq<char>) -> Seq<char> {
    if progress is Idle {
        name
    } else {
        name + " \u{2014} "@ + state
    }
}

/// Writes the window title from the application's `name` and the receiver's
/// `state`, as the status line words it.
pub fn title(name: &str, progress: RxProgress, state: &str) -> (text: String)
    ensures
        text@ == title_text(name@, progress, state@),
{
    let mut text = name.to_owned();
    match progress {
        RxProgress::Idle => {},
        _ => {
            text.append(" \u{2014} ");
            text.append(state);
        },
    }
    text
}

/// Columns of the strip, and where they belong in it.
///
/// One decoded line is one column; only the columns that changed are
/// published.
#[derive(Clone, Debug, PartialEq, Eq)]
pub struct StripUpdate {
    /// Pixels in one line, which is the strip's height.
    pub width: usize,
    /// The line the first column belongs to.
    pub first_line: usize,
    /// Line-major gray levels, `width` of them per column.
    pub gray: Vec<u8>,
    /// Whether every column before `first_line` changed as well.
    pub replaces_all: bool,
}

/// Whole lines in `len` gray levels of lines `width` long; none without a
/// width.
pub open spec fn whole_lines(len: nat, width: nat) -> nat {
    if width == 0 {
        0
    } else {
        len / width
    }
}

impl StripUpdate {
    pub fn lines(&self) -> (lines: usize)
        ensures
            lines == whole_lines(self.gray@.len(), self.width as nat),
    {
        if self.width == 0 {
            0
        } else {
            self.gray.len() / self.width
        }
    }

    /// The line just after the last one this update carries.
    pub fn end(&self) -> (end: usize)
        requires
            self.first_line + whole_lines(self.gray@.len(), self.width as nat) <= usize::MAX,
        ensures
            end == self.first_line + whole_lines(self.gray@.len(), self.width as nat),
    {
        self.first_line + self.lines()
    }

    /// Appends `later` when it continues from where this one ends.
    ///
    /// Returns whether it did. Two updates that do not meet cannot be joined,
    /// which only happens across a correction, and a correction publishes
    /// everything anyway.
    pub fn extend(&mut self, later: &StripUpdate) -> (joined: bool)
        ensures
            joined == (!later.replaces_all && later.width == old(self).width && later.first_line
                == old(self).first_line + whole_lines(old(self).gray@.len(), old(self).width as nat)),
            final(self).width == old(self).width,
            final(self).first_line == old(self).first_line,
            final(self).replaces_all == old(self).replaces_all,
            joined ==> final(self).gray@ == old(self).gray@ + later.gray@,
            !joined ==> final(self).gray@ == old(self).gray@,
    {
        if later.replaces_all || later.width != self.width {
            return false;
        }
        let lines = self.lines();
        if later.first_line < self.first_line || later.first_line - self.first_line != lines {
            return false;
        }
        self.gray.extend_from_slice(later.gray.as_slice());
        true
    }
}

/// How far the interface has been given the raster: the lines it holds
/// columns for, and the raster revision those were taken at.
///
/// The decoder advances the revision once per decoded line and once per
/// correction, so a revision that ran further than the line count did is how
/// a correction is noticed without the decoder having to announce one.
#[derive(Clone, Copy, Debug, PartialEq, Eq, Structural)]
pub struct Published {
    pub lines: usize,
    pub revision: u64,
}

/// What to publish of a raster now `lines` long at `revision`: nothing when
/// neither moved; otherwise the columns from the first line not yet given,
/// or from the top, replacing everything, when a correction rewrote the lines
/// already drawn.
pub open spec fn columns_due(published: Published, lines: nat, revision: nat) -> Option<(nat, bool)> {
    if revision == published.revision && lines == published.lines {
        None
    } else {
        let corrected = revision - published.revision != lines - published.lines;
        Some((if corrected { 0 } else { published.lines as nat }, corrected))
    }
}

impl Published {
    /// Nothing given yet, as at the start of a reception.
    pub fn start() -> (published: Self)
        ensures
            published.lines == 0 && published.revision == 0,
    {
        Published { lines: 0, revision: 0 }
    }

    /// The first line to publish and whether it replaces everything, or
    /// `None` when the interface already has all there is.
    pub fn due(&self, lines: usize, revision: u64) -> (due: Option<(usize, bool)>)
        requires
            self.lines <= lines,
            self.revision <= revision,
        ensures
            due matches Some((first, replaces)) ==> columns_due(*self, lines as nat, revision as nat)
                == Some((first as nat, replaces)),
            due is None <==> columns_due(*self, lines as nat, revision as nat) is None,
    {
        if revision == self.revision && lines == self.lines {
            return None;
        }
        let corrected = revision - self.revision != (lines - self.lines) as u64;
        let first = if corrected {
            0
        } else {
            self.lines
        };
        Some((first, corrected))
    }

    /// Records that the interface was given the raster up to `lines`.
    pub fn commit(&mut self, lines: usize, revision: u64)
        ensures
            final(self).lines == lines && final(self).revision == revision,
    {
        self.lines = lines;
        self.revision = revision;
    }
}

/// Whether `later` carries the columns that follow straight on from
/// `earlier`'s.
pub open spec fn continues(earlier: StripUpdate, later: StripUpdate) -> bool {
    !later.replaces_all && later.width == earlier.width && later.first_line == earlier.first_line
        + whole_lines(earlier.gray@.len(), earlier.width as nat)
}

/// The strip half of folding an uncollected snapshot into the one replacing
/// it.
///
/// Contiguous columns are joined; otherwise the newer update wins, and an
/// update that carries nothing keeps the one waiting.
pub fn merge_strip(earlier: Option<StripUpdate>, later: Option<StripUpdate>) -> (merged: Option<
    StripUpdate,
>)
    ensures
        earlier is None ==> merged == later,
        later is None ==> merged == earlier,
        earlier is Some && later is Some && continues(earlier->0, later->0) ==> merged is Some
            && merged->0.width == earlier->0.width && merged->0.first_line == earlier->0.first_line
            && merged->0.replaces_all == earlier->0.replaces_all && merged->0.gray@ == earlier->0.gray@
            + later->0.gray@,
        earlier is Some && later is Some && !continues(earlier->0, later->0) ==> merged == later,
{
    match earlier {
        Some(mut first) => match later {
            Some(second) => {
                if first.extend(&second) {
                    Some(first)
                } else {
                    Some(second)
                }
            },
            None => Some(first),
        },
        None => later,
    }
}

/// Joined updates carry the lines of both, when the earlier one holds whole
/// lines.
pub proof fn lemma_joined_lines(earlier_len: nat, later_len: nat, width: nat)
    requires
        width > 0,
        earlier_len % width == 0,
    ensures
        whole_lines(earlier_len + later_len, width) == whole_lines(earlier_len, width) + whole_lines(
            later_len,
            width,
        ),
{
    let e = earlier_len as int;
    let l = later_len as int;
    let w = width as int;
    vstd::arithmetic::div_mod::lemma_fundamental_div_mod(e, w);
    vstd::arithmetic::div_mod::lemma_fundamental_div_mod(l, w);
    let q = e / w;
    let r = l % w;
    let m = l / w;
    assert(e == w * q);
    assert(e + l == (q + m) * w + r) by (nonlinear_arith)
        requires
            e == w * q,
            l == w * m + r,
    ;
    assert(0 <= r < w);
    vstd::arithmetic::div_mod::lemma_fundamental_div_mod_converse_div(e + l, w, q + m, r);
}

} // verus!
