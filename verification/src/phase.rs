//! The states a transmission passes through.

use vstd::prelude::*;

verus! {

/// Where the thread keying one message has got to.
#[derive(Clone, Copy, Debug, PartialEq, Eq, Structural)]
pub enum TxPhase {
    Idle,
    /// Filling the queue before the device is told to start.
    Priming,
    Producing,
    /// Everything has been generated; the device is playing out what is left.
    Draining,
    Cancelled,
    Failed,
}

/// Whether a phase is one in which the rig is being keyed.
pub open spec fn phase_is_active(phase: TxPhase) -> bool {
    phase is Priming || phase is Producing || phase is Draining
}

impl Default for TxPhase {
    fn default() -> (phase: Self)
        ensures
            phase is Idle,
    {
        TxPhase::Idle
    }
}

impl TxPhase {
    /// Whether a message is on its way to the rig.
    pub fn is_active(self) -> (active: bool)
        ensures
            active == phase_is_active(self),
    {
        match self {
            TxPhase::Priming | TxPhase::Producing | TxPhase::Draining => true,
            _ => false,
        }
    }
}

/// Whether a phase is one the keying thread has left for good: the
/// generator ran out, was stopped, or failed.
pub open spec fn phase_is_final(phase: TxPhase) -> bool {
    phase is Draining || phase is Cancelled || phase is Failed
}

/// What happened to the keying thread since it last reported.
#[derive(Clone, Copy, Debug, PartialEq, Eq, Structural)]
pub enum KeyingEvent {
    /// The operator, or the device, stopped the transmission.
    Cancelled,
    /// The generator has nothing more to give.
    Exhausted,
    /// The generator could not go on.
    Failed,
    /// Samples were handed to the playback queue.
    Wrote { samples: u64 },
}

/// The samples held in the queue before the device is told to start: a
/// quarter of a second, at least one, and no more than the queue has room
/// for, so the first mark of the lead-in is not the one that underruns.
pub open spec fn prefill_for(vacant: nat, sample_rate_hz: nat) -> nat {
    let quarter = if sample_rate_hz / 4 >= 1 { sample_rate_hz / 4 } else { 1 };
    if vacant <= quarter { vacant } else { quarter }
}

/// The queue is primed with no more than it has room for and, when it has
/// any room, with at least one sample and no more than a quarter of a
/// second's worth (one sample, at rates under four hertz).
pub proof fn lemma_the_prefill_fits(vacant: nat, sample_rate_hz: nat)
    ensures
        prefill_for(vacant, sample_rate_hz) <= vacant,
        vacant > 0 ==> prefill_for(vacant, sample_rate_hz) >= 1,
        4 * prefill_for(vacant, sample_rate_hz) <= sample_rate_hz || prefill_for(vacant, sample_rate_hz) <= 1,
        vacant >= sample_rate_hz ==> 4 * prefill_for(vacant, sample_rate_hz) + 4 > sample_rate_hz,
{
}

/// Where the thread keying one message has got to: its phase and how many
/// samples it has generated.
#[derive(Clone, Copy, Debug)]
pub struct Keying {
    phase: TxPhase,
    generated_samples: u64,
    prefill: u64,
}

impl Keying {
    pub closed spec fn phase_spec(&self) -> TxPhase {
        self.phase
    }

    pub closed spec fn generated_spec(&self) -> u64 {
        self.generated_samples
    }

    pub closed spec fn prefill_spec(&self) -> u64 {
        self.prefill
    }

    /// A message about to be keyed into a queue with `vacant` samples of room,
    /// at `sample_rate_hz`.
    pub fn new(vacant: usize, sample_rate_hz: u32) -> (keying: Self)
        ensures
            keying.phase_spec() is Priming,
            keying.generated_spec() == 0,
            keying.prefill_spec() == prefill_for(vacant as nat, sample_rate_hz as nat),
    {
        let quarter = if sample_rate_hz / 4 >= 1 {
            sample_rate_hz / 4
        } else {
            1
        };
        let prefill = if (vacant as u64) <= (quarter as u64) {
            vacant as u64
        } else {
            quarter as u64
        };
        Keying { phase: TxPhase::Priming, generated_samples: 0, prefill }
    }

    pub fn phase(&self) -> (phase: TxPhase)
        ensures
            phase == self.phase_spec(),
    {
        self.phase
    }

    pub fn generated_samples(&self) -> (generated: u64)
        ensures
            generated == self.generated_spec(),
    {
        self.generated_samples
    }

    /// Takes in what happened, and says whether the thread is done.
    ///
    /// A message is producing once the queue holds its prefill; it drains
    /// once the generator runs out. A phase the thread has left for good is
    /// kept whatever is reported after it.
    pub fn step(&mut self, event: KeyingEvent) -> (done: bool)
        requires
            event matches KeyingEvent::Wrote { samples } ==> old(self).generated_spec() + samples
                <= u64::MAX,
        ensures
            done == phase_is_final(final(self).phase_spec()),
            final(self).prefill_spec() == old(self).prefill_spec(),
            final(self).generated_spec() >= old(self).generated_spec(),
            !(old(self).phase_spec() is Priming) ==> !(final(self).phase_spec() is Priming),
            phase_is_final(old(self).phase_spec()) ==> *final(self) == *old(self),
            !phase_is_final(old(self).phase_spec()) ==> match event {
                KeyingEvent::Cancelled => final(self).phase_spec() is Cancelled
                    && final(self).generated_spec() == old(self).generated_spec(),
                KeyingEvent::Exhausted => final(self).phase_spec() is Draining
                    && final(self).generated_spec() == old(self).generated_spec(),
                KeyingEvent::Failed => final(self).phase_spec() is Failed
                    && final(self).generated_spec() == old(self).generated_spec(),
                KeyingEvent::Wrote { samples } => {
                    &&& final(self).generated_spec() == old(self).generated_spec() + samples
                    &&& final(self).phase_spec() == if old(self).phase_spec() is Priming
                        && final(self).generated_spec() >= old(self).prefill_spec() {
                        TxPhase::Producing
                    } else {
                        old(self).phase_spec()
                    }
                },
            },
    {
        match self.phase {
            TxPhase::Draining | TxPhase::Cancelled | TxPhase::Failed => return true,
            _ => {},
        }
        match event {
            KeyingEvent::Cancelled => {
                self.phase = TxPhase::Cancelled;
                true
            },
            KeyingEvent::Exhausted => {
                self.phase = TxPhase::Draining;
                true
            },
            KeyingEvent::Failed => {
                self.phase = TxPhase::Failed;
                true
            },
            KeyingEvent::Wrote { samples } => {
                self.generated_samples = self.generated_samples + samples;
                if self.phase == TxPhase::Priming && self.generated_samples >= self.prefill {
                    self.phase = TxPhase::Producing;
                }
                false
            },
        }
    }
}

/// What the message on the air asks of the interface on one frame.
#[derive(Clone, Copy, Debug, PartialEq, Eq, Structural)]
pub enum TxStep {
    /// The transmitter failed: stop it, forget the message, and report why.
    Fail,
    /// The queue holds its prefill: tell the device to start playing.
    StartPlayback,
    /// Nothing to do this frame.
    Wait,
}

/// Decides what a frame does about the message on the air, from the phase
/// its thread last reported and whether the device has been started.
pub fn tx_step(phase: TxPhase, started: bool) -> (step: TxStep)
    ensures
        phase is Failed ==> step is Fail,
        !(phase is Failed) && !started && !(phase is Priming) ==> step is StartPlayback,
        !(phase is Failed) && (started || phase is Priming) ==> step is Wait,
{
    match phase {
        TxPhase::Failed => TxStep::Fail,
        TxPhase::Priming => TxStep::Wait,
        _ => if started {
            TxStep::Wait
        } else {
            TxStep::StartPlayback
        },
    }
}

/// Whether an underrun is worth a notice: one gap in the audio is one notice
/// per capture session, rather than one per frame.
pub fn report_underrun(underrun: bool, reported: Option<u64>, session: u64) -> (report: bool)
    ensures
        report == (underrun && reported != Some(session)),
{
    underrun && match reported {
        Some(earlier) => earlier != session,
        None => true,
    }
}

/// What a frame does once the stream on the air has been seen to.
#[derive(Clone, Copy, Debug, PartialEq, Eq)]
pub struct Wrapup {
    /// Close a stream that has played out, echoing what it played last.
    pub finish: bool,
    /// Hand the next queued message to a new stream.
    pub next: bool,
}

/// Decides the end of a frame from whether a stream is running, whether its
/// playback started, and whether the device has played out everything it was
/// given: a started stream that has drained is closed, and once no stream is
/// running (or this one is being closed) the next message may go.
pub fn wrap_up(running: bool, started: bool, drained: bool) -> (wrapup: Wrapup)
    ensures
        wrapup.finish == (running && started && drained),
        wrapup.next == (!running || (started && drained)),
{
    let finish = running && started && drained;
    Wrapup { finish, next: !running || finish }
}

} // verus!
