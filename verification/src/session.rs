//! What a WEFAX reception does about the controls, between two blocks of
//! audio.
//!
//! The controls are read once per block: a change of band, a reset, a manual
//! stop or start, a phase shift, a slant correction. Each becomes a step on
//! the decoder, in a fixed order; the receive worker performs the steps and
//! reports back how each went.

use vstd::prelude::*;

verus! {

/// One thing done to the reception.
#[derive(Clone, Copy, Debug, PartialEq, Eq, Structural)]
pub enum ReceiveStep {
    /// Build the demodulator and decoder anew, on the settings asked for.
    Restart,
    /// Take the settings asked for, and hand the decoder its automatic start,
    /// automatic stop and inversion.
    Configure,
    /// End the chart being received, as the operator asked.
    Stop,
    /// Keep what has been received as a chart.
    Finish,
    /// Start receiving a chart now, in the chosen format.
    StartManually,
    /// Move the picture sideways by this many pixels.
    ShiftPhase(i64),
    /// Correct the slant the operator asked for.
    AdjustSlant,
}

/// The steps for one reading of the controls, in order.
///
/// A new band is a new reception, so it comes first. A reset ends the chart
/// before it is kept and starts over, and nothing else is done that block.
/// Otherwise a manual stop ends and keeps the chart; a manual start keeps
/// what there was, starts over and starts at once; then the picture is
/// shifted and its slant corrected where that was asked for.
pub open spec fn receive_steps(
    band_changed: bool,
    reset: bool,
    manual_stop: bool,
    manual_start: bool,
    shift: i64,
    slant: bool,
) -> Seq<ReceiveStep> {
    (if band_changed {
        seq![ReceiveStep::Restart]
    } else {
        Seq::empty()
    }) + seq![ReceiveStep::Configure] + if reset {
        seq![ReceiveStep::Stop, ReceiveStep::Finish, ReceiveStep::Restart]
    } else {
        (if manual_stop {
            seq![ReceiveStep::Stop, ReceiveStep::Finish]
        } else {
            Seq::empty()
        }) + (if manual_start {
            seq![ReceiveStep::Finish, ReceiveStep::Restart, ReceiveStep::StartManually]
        } else {
            Seq::empty()
        }) + (if shift != 0 {
            seq![ReceiveStep::ShiftPhase(shift)]
        } else {
            Seq::empty()
        }) + (if slant {
            seq![ReceiveStep::AdjustSlant]
        } else {
            Seq::empty()
        })
    }
}

/// The steps to take for one reading of the controls.
pub fn receive_plan(
    band_changed: bool,
    reset: bool,
    manual_stop: bool,
    manual_start: bool,
    shift: i64,
    slant: bool,
) -> (plan: Vec<ReceiveStep>)
    ensures
        plan@ == receive_steps(band_changed, reset, manual_stop, manual_start, shift, slant),
{
    let mut plan: Vec<ReceiveStep> = Vec::new();
    if band_changed {
        plan.push(ReceiveStep::Restart);
    }
    plan.push(ReceiveStep::Configure);
    if reset {
        plan.push(ReceiveStep::Stop);
        plan.push(ReceiveStep::Finish);
        plan.push(ReceiveStep::Restart);
    } else {
        if manual_stop {
            plan.push(ReceiveStep::Stop);
            plan.push(ReceiveStep::Finish);
        }
        if manual_start {
            plan.push(ReceiveStep::Finish);
            plan.push(ReceiveStep::Restart);
            plan.push(ReceiveStep::StartManually);
        }
        if shift != 0 {
            plan.push(ReceiveStep::ShiftPhase(shift));
        }
        if slant {
            plan.push(ReceiveStep::AdjustSlant);
        }
    }
    proof {
        assert(plan@ =~= receive_steps(band_changed, reset, manual_stop, manual_start, shift, slant));
    }
    plan
}

/// What one step leaves, given whether the picture had changed before it and
/// whether the step succeeded: `None` when its failure ends the block with an
/// error, and otherwise whether the picture has changed now.
///
/// A new reception that cannot be built, or a manual start the decoder
/// refuses, is an error. A phase shift or a slant correction the decoder
/// refuses is no error: the picture simply does not change. Stopping,
/// keeping and configuring cannot fail.
pub open spec fn step_outcome(changed: bool, step: ReceiveStep, succeeded: bool) -> Option<bool> {
    match step {
        ReceiveStep::Restart => if succeeded {
            Some(changed)
        } else {
            None
        },
        ReceiveStep::StartManually => if succeeded {
            Some(true)
        } else {
            None
        },
        ReceiveStep::Stop => Some(true),
        ReceiveStep::Finish | ReceiveStep::Configure => Some(changed),
        ReceiveStep::ShiftPhase(_) | ReceiveStep::AdjustSlant => Some(changed || succeeded),
    }
}

/// Folds one step's result into whether the picture changed.
pub fn after_step(changed: bool, step: ReceiveStep, succeeded: bool) -> (outcome: Option<bool>)
    ensures
        outcome == step_outcome(changed, step, succeeded),
{
    match step {
        ReceiveStep::Restart => if succeeded {
            Some(changed)
        } else {
            None
        },
        ReceiveStep::StartManually => if succeeded {
            Some(true)
        } else {
            None
        },
        ReceiveStep::Stop => Some(true),
        ReceiveStep::Finish | ReceiveStep::Configure => Some(changed),
        ReceiveStep::ShiftPhase(_) | ReceiveStep::AdjustSlant => Some(changed || succeeded),
    }
}

/// A reset always ends the plan on a new reception, with nothing after it.
pub proof fn lemma_a_reset_ends_the_plan(
    band_changed: bool,
    manual_stop: bool,
    manual_start: bool,
    shift: i64,
    slant: bool,
)
    ensures
        receive_steps(band_changed, true, manual_stop, manual_start, shift, slant).last()
            == ReceiveStep::Restart,
        !receive_steps(band_changed, true, manual_stop, manual_start, shift, slant).contains(
            ReceiveStep::StartManually,
        ),
{
    let steps = receive_steps(band_changed, true, manual_stop, manual_start, shift, slant);
    let head = if band_changed {
        seq![ReceiveStep::Restart]
    } else {
        Seq::<ReceiveStep>::empty()
    };
    assert(steps == head + seq![ReceiveStep::Configure] + seq![
        ReceiveStep::Stop,
        ReceiveStep::Finish,
        ReceiveStep::Restart,
    ]);
    if steps.contains(ReceiveStep::StartManually) {
        let i = choose|i: int| 0 <= i < steps.len() && steps[i] == ReceiveStep::StartManually;
        assert(false);
    }
}

/// Which steps a reading of the controls takes, step by step: a new band
/// restarts first and otherwise the settings are taken first; the settings
/// are always taken; a reset or a manual stop stops the chart; without a
/// reset, a manual start starts one, a phase shift asked for is made by
/// exactly that many pixels, and a slant correction asked for is made,
/// whatever else was asked in the same block; nothing that was not asked
/// for is done.
pub proof fn lemma_each_control_is_acted_on(
    band_changed: bool,
    reset: bool,
    manual_stop: bool,
    manual_start: bool,
    shift: i64,
    slant: bool,
)
    ensures
        ({
            let plan = receive_steps(band_changed, reset, manual_stop, manual_start, shift, slant);
            &&& plan.len() > 0
            &&& band_changed <==> plan[0] == ReceiveStep::Restart
            &&& plan.contains(ReceiveStep::Configure)
            &&& plan.contains(ReceiveStep::Stop) <==> (reset || manual_stop)
            &&& plan.contains(ReceiveStep::StartManually) <==> (!reset && manual_start)
            &&& plan.contains(ReceiveStep::AdjustSlant) <==> (!reset && slant)
            &&& (!reset && shift != 0) ==> plan.contains(ReceiveStep::ShiftPhase(shift))
            &&& forall|d: i64| #[trigger] plan.contains(ReceiveStep::ShiftPhase(d)) ==> !reset && d == shift && d != 0
            &&& (!reset && slant) ==> plan.last() == ReceiveStep::AdjustSlant
            &&& reset ==> plan.last() == ReceiveStep::Restart
        }),
{
    let plan = receive_steps(band_changed, reset, manual_stop, manual_start, shift, slant);
    let head = if band_changed {
        seq![ReceiveStep::Restart]
    } else {
        Seq::<ReceiveStep>::empty()
    };
    let first = head + seq![ReceiveStep::Configure];
    lemma_in_concat(head, seq![ReceiveStep::Configure]);
    lemma_in_one(seq![ReceiveStep::Configure], ReceiveStep::Configure);
    lemma_in_one(seq![ReceiveStep::Restart], ReceiveStep::Restart);
    lemma_in_none();
    if band_changed {
        assert(plan[0] == ReceiveStep::Restart);
    } else {
        assert(plan[0] == ReceiveStep::Configure);
    }
    if reset {
        lemma_reset_plan(first, plan);
    } else {
        lemma_plain_plan(first, plan, manual_stop, manual_start, shift, slant);
    }
}

/// Whether a step is in `a` followed by `b`.
proof fn lemma_in_concat(a: Seq<ReceiveStep>, b: Seq<ReceiveStep>)
    ensures
        forall|x: ReceiveStep| #[trigger] (a + b).contains(x) <==> (a.contains(x) || b.contains(x)),
{
    assert forall|x: ReceiveStep| #[trigger] (a + b).contains(x) <==> (a.contains(x) || b.contains(x)) by {
        if (a + b).contains(x) {
            let k = choose|k: int| 0 <= k < (a + b).len() && (a + b)[k] == x;
            if k >= a.len() {
                assert(b[k - a.len()] == x);
            } else {
                assert(a[k] == x);
            }
        }
        if a.contains(x) {
            let k = choose|k: int| 0 <= k < a.len() && a[k] == x;
            assert((a + b)[k] == x);
        }
        if b.contains(x) {
            let k = choose|k: int| 0 <= k < b.len() && b[k] == x;
            assert((a + b)[k + a.len()] == x);
        }
    }
}

proof fn lemma_in_none()
    ensures
        forall|x: ReceiveStep| !(#[trigger] Seq::<ReceiveStep>::empty().contains(x)),
{
}

proof fn lemma_in_one(s: Seq<ReceiveStep>, a: ReceiveStep)
    requires
        s == seq![a],
    ensures
        forall|x: ReceiveStep| #[trigger] s.contains(x) <==> x == a,
{
    assert forall|x: ReceiveStep| #[trigger] s.contains(x) <==> x == a by {
        if x == a {
            assert(s[0] == x);
        }
    }
}

proof fn lemma_in_two(s: Seq<ReceiveStep>, a: ReceiveStep, b: ReceiveStep)
    requires
        s == seq![a, b],
    ensures
        forall|x: ReceiveStep| #[trigger] s.contains(x) <==> (x == a || x == b),
{
    assert forall|x: ReceiveStep| #[trigger] s.contains(x) <==> (x == a || x == b) by {
        if x == a {
            assert(s[0] == x);
        }
        if x == b {
            assert(s[1] == x);
        }
    }
}

proof fn lemma_in_three(s: Seq<ReceiveStep>, a: ReceiveStep, b: ReceiveStep, c: ReceiveStep)
    requires
        s == seq![a, b, c],
    ensures
        forall|x: ReceiveStep| #[trigger] s.contains(x) <==> (x == a || x == b || x == c),
{
    assert forall|x: ReceiveStep| #[trigger] s.contains(x) <==> (x == a || x == b || x == c) by {
        if x == a {
            assert(s[0] == x);
        }
        if x == b {
            assert(s[1] == x);
        }
        if x == c {
            assert(s[2] == x);
        }
    }
}

/// The plan for a block with a reset in it.
proof fn lemma_reset_plan(first: Seq<ReceiveStep>, plan: Seq<ReceiveStep>)
    requires
        forall|x: ReceiveStep| #[trigger] first.contains(x) ==> x == ReceiveStep::Restart || x
            == ReceiveStep::Configure,
        first.contains(ReceiveStep::Configure),
        plan == first + seq![ReceiveStep::Stop, ReceiveStep::Finish, ReceiveStep::Restart],
    ensures
        plan.contains(ReceiveStep::Configure),
        plan.contains(ReceiveStep::Stop),
        !plan.contains(ReceiveStep::StartManually),
        !plan.contains(ReceiveStep::AdjustSlant),
        forall|d: i64| !(#[trigger] plan.contains(ReceiveStep::ShiftPhase(d))),
        plan.last() == ReceiveStep::Restart,
{
    let rest = seq![ReceiveStep::Stop, ReceiveStep::Finish, ReceiveStep::Restart];
    lemma_in_concat(first, rest);
    lemma_in_three(rest, ReceiveStep::Stop, ReceiveStep::Finish, ReceiveStep::Restart);
    assert forall|d: i64| !(#[trigger] plan.contains(ReceiveStep::ShiftPhase(d))) by {
        assert(plan.contains(ReceiveStep::ShiftPhase(d)) <==> (first.contains(ReceiveStep::ShiftPhase(d))
            || rest.contains(ReceiveStep::ShiftPhase(d))));
    }
}

/// The plan for a block with no reset in it.
#[verifier::rlimit(30)]
proof fn lemma_plain_plan(
    first: Seq<ReceiveStep>,
    plan: Seq<ReceiveStep>,
    manual_stop: bool,
    manual_start: bool,
    shift: i64,
    slant: bool,
)
    requires
        forall|x: ReceiveStep| #[trigger] first.contains(x) ==> x == ReceiveStep::Restart || x
            == ReceiveStep::Configure,
        first.contains(ReceiveStep::Configure),
        plan == first + ((if manual_stop {
            seq![ReceiveStep::Stop, ReceiveStep::Finish]
        } else {
            Seq::empty()
        }) + (if manual_start {
            seq![ReceiveStep::Finish, ReceiveStep::Restart, ReceiveStep::StartManually]
        } else {
            Seq::empty()
        }) + (if shift != 0 {
            seq![ReceiveStep::ShiftPhase(shift)]
        } else {
            Seq::empty()
        }) + (if slant {
            seq![ReceiveStep::AdjustSlant]
        } else {
            Seq::empty()
        })),
    ensures
        plan.contains(ReceiveStep::Configure),
        plan.contains(ReceiveStep::Stop) <==> manual_stop,
        plan.contains(ReceiveStep::StartManually) <==> manual_start,
        plan.contains(ReceiveStep::AdjustSlant) <==> slant,
        shift != 0 ==> plan.contains(ReceiveStep::ShiftPhase(shift)),
        forall|d: i64| #[trigger] plan.contains(ReceiveStep::ShiftPhase(d)) ==> d == shift && d != 0,
        slant ==> plan.last() == ReceiveStep::AdjustSlant,
{
    let stop = if manual_stop {
        seq![ReceiveStep::Stop, ReceiveStep::Finish]
    } else {
        Seq::<ReceiveStep>::empty()
    };
    let start = if manual_start {
        seq![ReceiveStep::Finish, ReceiveStep::Restart, ReceiveStep::StartManually]
    } else {
        Seq::<ReceiveStep>::empty()
    };
    let shifted = if shift != 0 {
        seq![ReceiveStep::ShiftPhase(shift)]
    } else {
        Seq::<ReceiveStep>::empty()
    };
    let slanted = if slant {
        seq![ReceiveStep::AdjustSlant]
    } else {
        Seq::<ReceiveStep>::empty()
    };
    lemma_in_none();
    lemma_in_two(seq![ReceiveStep::Stop, ReceiveStep::Finish], ReceiveStep::Stop, ReceiveStep::Finish);
    lemma_in_three(
        seq![ReceiveStep::Finish, ReceiveStep::Restart, ReceiveStep::StartManually],
        ReceiveStep::Finish,
        ReceiveStep::Restart,
        ReceiveStep::StartManually,
    );
    lemma_in_one(seq![ReceiveStep::ShiftPhase(shift)], ReceiveStep::ShiftPhase(shift));
    lemma_in_one(seq![ReceiveStep::AdjustSlant], ReceiveStep::AdjustSlant);
    lemma_in_concat(stop, start);
    lemma_in_concat(stop + start, shifted);
    lemma_in_concat(stop + start + shifted, slanted);
    lemma_in_concat(first, stop + start + shifted + slanted);
    if slant {
        assert(plan.last() == slanted[0]);
    }
}

/// What a step's result means: a restart or a manual start that fails ends
/// the block with an error and nothing else does; a stop, and a manual start
/// that succeeds, change the picture; a phase shift or a slant correction
/// changes it exactly when it succeeds; and nothing unsets a change already
/// made.
pub proof fn lemma_step_results(changed: bool, step: ReceiveStep, succeeded: bool)
    ensures
        step_outcome(changed, step, succeeded) is None <==> (!succeeded && (step == ReceiveStep::Restart
            || step == ReceiveStep::StartManually)),
        step_outcome(changed, step, succeeded) matches Some(now) ==> (changed ==> now),
        step == ReceiveStep::Stop ==> step_outcome(changed, step, succeeded) == Some(true),
        step == ReceiveStep::StartManually && succeeded ==> step_outcome(changed, step, succeeded) == Some(true),
        (step is ShiftPhase || step == ReceiveStep::AdjustSlant) ==> step_outcome(changed, step, succeeded) == Some(
            changed || succeeded,
        ),
        (step == ReceiveStep::Finish || step == ReceiveStep::Configure || (step == ReceiveStep::Restart
            && succeeded)) ==> step_outcome(changed, step, succeeded) == Some(changed),
{
}

} // verus!
