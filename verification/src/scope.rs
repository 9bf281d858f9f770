//! What the scope window is drawn from: the channel pairs of the trace, the
//! band the receiver is listening across, and whether the window is open.
//!
//! The window shows what is arriving now, so the trace keeps only its newest
//! pairs, and a closed window throws away what was on it. The pairs, the band
//! and its bin width are carried as they come; nothing here reads them.

use vstd::prelude::*;

verus! {

/// Channel pairs held for the trace: an eighth of a second at the rate the
/// tap keeps them.
pub const TRACE_POINTS: usize = 512;

/// `held` followed by `arriving`, the oldest dropped past `limit`.
pub open spec fn newest<P>(held: Seq<P>, arriving: Seq<P>, limit: nat) -> Seq<P> {
    let all = held + arriving;
    if all.len() > limit {
        all.skip(all.len() - limit)
    } else {
        all
    }
}

/// Appends `arriving` to `held` and keeps the newest `limit` of them.
pub fn keep_newest<P>(held: Vec<P>, arriving: Vec<P>, limit: usize) -> (kept: Vec<P>)
    ensures
        kept@ == newest(held@, arriving@, limit as nat),
{
    let mut all = held;
    let mut arriving = arriving;
    let ghost first = all@;
    let ghost second = arriving@;
    all.append(&mut arriving);
    if all.len() <= limit {
        return all;
    }
    let excess = all.len() - limit;
    let kept = all.split_off(excess);
    proof {
        assert(kept@ =~= (first + second).skip(excess as int));
    }
    kept
}

/// The scope window's state: points of type `P`, band values of type `B`,
/// and a bin width of type `W`.
#[derive(Debug)]
pub struct ScopeState<P, B, W> {
    open: bool,
    close_requested: bool,
    moved: bool,
    points: Vec<P>,
    band: Vec<B>,
    bin: Option<W>,
}

impl<P, B, W> ScopeState<P, B, W> {
    pub closed spec fn open_spec(&self) -> bool {
        self.open
    }

    pub closed spec fn close_requested_spec(&self) -> bool {
        self.close_requested
    }

    pub closed spec fn moved_spec(&self) -> bool {
        self.moved
    }

    pub closed spec fn points_spec(&self) -> Seq<P> {
        self.points@
    }

    pub closed spec fn band_spec(&self) -> Seq<B> {
        self.band@
    }

    pub closed spec fn bin_spec(&self) -> Option<W> {
        self.bin
    }

    /// A closed window with nothing on it.
    pub fn new() -> (scope: Self)
        ensures
            !scope.open_spec() && !scope.close_requested_spec() && !scope.moved_spec(),
            scope.points_spec().len() == 0 && scope.band_spec().len() == 0,
            scope.bin_spec() is None,
    {
        ScopeState {
            open: false,
            close_requested: false,
            moved: false,
            points: Vec::new(),
            band: Vec::new(),
            bin: None,
        }
    }

    pub fn is_open(&self) -> (open: bool)
        ensures
            open == self.open_spec(),
    {
        self.open
    }

    /// Opens or closes the window.
    ///
    /// A change forgets any close the operator asked for, so a window opened
    /// again is not closed on the frame it opened; closing throws away what
    /// was on it, a trace kept from a minute ago saying the band is busy when
    /// it is not.
    pub fn set_open(&mut self, open: bool)
        ensures
            final(self).open_spec() == open,
            final(self).moved_spec() == old(self).moved_spec(),
            final(self).bin_spec() == old(self).bin_spec(),
            open == old(self).open_spec() ==> final(self).close_requested_spec() == old(
                self,
            ).close_requested_spec() && final(self).points_spec() == old(self).points_spec()
                && final(self).band_spec() == old(self).band_spec(),
            open != old(self).open_spec() ==> !final(self).close_requested_spec(),
            open != old(self).open_spec() && open ==> final(self).points_spec() == old(
                self,
            ).points_spec() && final(self).band_spec() == old(self).band_spec(),
            open != old(self).open_spec() && !open ==> final(self).points_spec().len() == 0
                && final(self).band_spec().len() == 0,
    {
        if self.open == open {
            return;
        }
        self.open = open;
        self.close_requested = false;
        if !open {
            self.points = Vec::new();
            self.band = Vec::new();
        }
    }

    /// Adds what the receive worker tapped since the last frame: the pairs
    /// join the trace, newest kept, and a band replaces the one drawn unless
    /// it is empty, as it is before the transform has filled.
    pub fn push(&mut self, points: Vec<P>, band: Vec<B>, bin: W)
        ensures
            final(self).open_spec() == old(self).open_spec(),
            final(self).close_requested_spec() == old(self).close_requested_spec(),
            final(self).moved_spec(),
            final(self).points_spec() == newest(old(self).points_spec(), points@, TRACE_POINTS as nat),
            band@.len() > 0 ==> final(self).band_spec() == band@ && final(self).bin_spec() == Some(
                bin,
            ),
            band@.len() == 0 ==> final(self).band_spec() == old(self).band_spec()
                && final(self).bin_spec() == old(self).bin_spec(),
    {
        let mut held: Vec<P> = Vec::new();
        core::mem::swap(&mut held, &mut self.points);
        self.points = keep_newest(held, points, TRACE_POINTS);
        if band.len() > 0 {
            self.band = band;
            self.bin = Some(bin);
        }
        self.moved = true;
    }

    /// Notes that something the window draws changed, such as the pair the
    /// markers stand on or the language of its labels.
    pub fn note_moved(&mut self)
        ensures
            final(self).moved_spec(),
            final(self).open_spec() == old(self).open_spec(),
            final(self).close_requested_spec() == old(self).close_requested_spec(),
            final(self).points_spec() == old(self).points_spec(),
            final(self).band_spec() == old(self).band_spec(),
            final(self).bin_spec() == old(self).bin_spec(),
    {
        self.moved = true;
    }

    /// Records the operator's request to close the window from its own frame.
    pub fn request_close(&mut self)
        ensures
            final(self).close_requested_spec(),
            final(self).open_spec() == old(self).open_spec(),
            final(self).moved_spec() == old(self).moved_spec(),
            final(self).points_spec() == old(self).points_spec(),
            final(self).band_spec() == old(self).band_spec(),
            final(self).bin_spec() == old(self).bin_spec(),
    {
        self.close_requested = true;
    }

    /// Takes the operator's request to close the window, once.
    pub fn take_close_request(&mut self) -> (requested: bool)
        ensures
            requested == old(self).close_requested_spec(),
            !final(self).close_requested_spec(),
            final(self).open_spec() == old(self).open_spec(),
            final(self).moved_spec() == old(self).moved_spec(),
            final(self).points_spec() == old(self).points_spec(),
            final(self).band_spec() == old(self).band_spec(),
            final(self).bin_spec() == old(self).bin_spec(),
    {
        let requested = self.close_requested;
        self.close_requested = false;
        requested
    }

    /// Takes whether anything worth a frame of the window arrived, once.
    pub fn take_moved(&mut self) -> (moved: bool)
        ensures
            moved == old(self).moved_spec(),
            !final(self).moved_spec(),
            final(self).open_spec() == old(self).open_spec(),
            final(self).close_requested_spec() == old(self).close_requested_spec(),
            final(self).points_spec() == old(self).points_spec(),
            final(self).band_spec() == old(self).band_spec(),
            final(self).bin_spec() == old(self).bin_spec(),
    {
        let moved = self.moved;
        self.moved = false;
        moved
    }

    /// The trace, oldest pair first.
    pub fn points(&self) -> (points: &[P])
        ensures
            points@ == self.points_spec(),
    {
        self.points.as_slice()
    }

    /// The band last drawn.
    pub fn band(&self) -> (band: &[B])
        ensures
            band@ == self.band_spec(),
    {
        self.band.as_slice()
    }

    /// The width of one bin of the band last drawn, if one has been.
    pub fn bin(&self) -> (bin: Option<&W>)
        ensures
            bin matches Some(w) ==> self.bin_spec() == Some(*w),
            bin is None ==> self.bin_spec() is None,
    {
        match &self.bin {
            Some(w) => Some(w),
            None => None,
        }
    }
}

} // verus!
