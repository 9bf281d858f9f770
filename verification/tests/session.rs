use grayline_apps::session::{ReceiveStep, after_step, receive_plan};

use ReceiveStep::{AdjustSlant, Configure, Finish, Restart, ShiftPhase, StartManually, Stop};

#[test]
fn nothing_asked_only_takes_the_settings() {
    assert_eq!(receive_plan(false, false, false, false, 0, false), [Configure]);
}

#[test]
fn a_new_band_is_a_new_reception_first() {
    assert_eq!(receive_plan(true, false, false, false, 0, false), [Restart, Configure]);
}

#[test]
fn a_reset_stops_keeps_and_starts_over_and_nothing_more() {
    assert_eq!(receive_plan(true, true, true, true, 16, true), [Restart, Configure, Stop, Finish, Restart]);
    assert_eq!(receive_plan(false, true, false, false, 0, false), [Configure, Stop, Finish, Restart]);
}

#[test]
fn the_controls_are_acted_on_in_order() {
    assert_eq!(
        receive_plan(false, false, true, true, -16, true),
        [Configure, Stop, Finish, Finish, Restart, StartManually, ShiftPhase(-16), AdjustSlant]
    );
    assert_eq!(receive_plan(false, false, false, true, 0, false), [Configure, Finish, Restart, StartManually]);
}

#[test]
fn a_failed_restart_or_start_ends_the_block_and_a_refused_shift_does_not() {
    assert_eq!(after_step(false, Restart, false), None);
    assert_eq!(after_step(false, Restart, true), Some(false));
    assert_eq!(after_step(false, StartManually, false), None);
    assert_eq!(after_step(false, StartManually, true), Some(true));
    assert_eq!(after_step(false, ShiftPhase(4), false), Some(false));
    assert_eq!(after_step(false, ShiftPhase(4), true), Some(true));
    assert_eq!(after_step(true, AdjustSlant, false), Some(true));
    assert_eq!(after_step(false, Stop, true), Some(true));
    assert_eq!(after_step(false, Finish, true), Some(false));
    assert_eq!(after_step(true, Configure, true), Some(true));
}
