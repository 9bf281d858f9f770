//! When a receive worker hands an observation over.
//!
//! Publishing is throttled, so the last block before the audio stops would
//! otherwise never be shown: a recording ends, and what was decoded on its
//! final samples would never reach the interface. The throttle remembers that
//! something is waiting and hands it over on the first quiet read.

use vstd::prelude::*;

verus! {

/// Whether anything has been decoded that the interface has not been told
/// about.
#[derive(Clone, Copy, Debug, PartialEq, Eq, Structural)]
pub struct Throttle {
    pub unpublished: bool,
}

impl Throttle {
    /// A worker that has told the interface everything.
    pub fn new() -> (throttle: Self)
        ensures
            !throttle.unpublished,
    {
        Throttle { unpublished: false }
    }

    /// Notes a change the operator's controls made to what the interface
    /// draws, which has to be published on its own account when no audio is
    /// arriving.
    pub fn note_change(&mut self, changed: bool)
        ensures
            final(self).unpublished == (old(self).unpublished || changed),
    {
        self.unpublished = self.unpublished || changed;
    }

    /// A read that found no audio: publish what is waiting, or a failure.
    pub fn on_idle(&mut self, failed: bool) -> (publish: bool)
        ensures
            (publish, *final(self)) == idle_read(*old(self), failed),
    {
        let publish = self.unpublished || failed;
        self.unpublished = false;
        publish
    }

    /// A block was decoded: publish when the interval is due or the block
    /// brought something that cannot wait; otherwise remember it is waiting.
    pub fn on_block(&mut self, due: bool, urgent: bool) -> (publish: bool)
        ensures
            (publish, *final(self)) == decoded_block(*old(self), due, urgent),
    {
        let publish = due || urgent;
        self.unpublished = !publish;
        publish
    }
}

/// A read that found no audio, as mathematics: whether it publishes, and the
/// throttle after it.
pub open spec fn idle_read(throttle: Throttle, failed: bool) -> (bool, Throttle) {
    (throttle.unpublished || failed, Throttle { unpublished: false })
}

/// A decoded block, as mathematics: whether it publishes, and the throttle
/// after it.
pub open spec fn decoded_block(throttle: Throttle, due: bool, urgent: bool) -> (bool, Throttle) {
    (due || urgent, Throttle { unpublished: !(due || urgent) })
}

/// Decoded audio is never left behind when the audio stops: a block is
/// published when it is decoded or, at the latest, by the first read after it
/// that finds no audio.
pub proof fn lemma_a_block_is_published_by_the_next_quiet_read(
    throttle: Throttle,
    due: bool,
    urgent: bool,
    failed: bool,
)
    ensures
        decoded_block(throttle, due, urgent).0 || idle_read(decoded_block(throttle, due, urgent).1, failed).0,
{
}

} // verus!
