use grayline_apps::phase::{Wrapup, wrap_up};
use grayline_apps::phase::{Keying, KeyingEvent, TxPhase, TxStep, report_underrun, tx_step};

#[test]
fn only_a_running_transmission_is_active() {
    assert!(!TxPhase::Idle.is_active());
    assert!(TxPhase::Priming.is_active());
    assert!(TxPhase::Producing.is_active());
    assert!(TxPhase::Draining.is_active());
    assert!(!TxPhase::Cancelled.is_active());
    assert!(!TxPhase::Failed.is_active());
}

#[test]
fn a_transmitter_starts_idle() {
    assert_eq!(TxPhase::default(), TxPhase::Idle);
}

#[test]
fn a_message_is_producing_once_the_queue_holds_its_prefill() {
    let mut keying = Keying::new(48_000, 8_000);
    assert_eq!(keying.phase(), TxPhase::Priming);
    assert!(!keying.step(KeyingEvent::Wrote { samples: 1_024 }));
    assert_eq!(keying.phase(), TxPhase::Priming);
    assert!(!keying.step(KeyingEvent::Wrote { samples: 976 }));
    assert_eq!(keying.phase(), TxPhase::Producing);
    assert_eq!(keying.generated_samples(), 2_000);
    assert!(keying.step(KeyingEvent::Exhausted));
    assert_eq!(keying.phase(), TxPhase::Draining);
}

#[test]
fn the_prefill_is_no_more_than_the_queue_has_room_for() {
    let mut keying = Keying::new(100, 8_000);
    keying.step(KeyingEvent::Wrote { samples: 100 });
    assert_eq!(keying.phase(), TxPhase::Producing);
    let mut slow = Keying::new(10, 3);
    slow.step(KeyingEvent::Wrote { samples: 1 });
    assert_eq!(slow.phase(), TxPhase::Producing);
}

#[test]
fn a_stopped_transmission_stays_stopped() {
    let mut keying = Keying::new(48_000, 8_000);
    assert!(keying.step(KeyingEvent::Cancelled));
    assert!(keying.step(KeyingEvent::Wrote { samples: 5 }));
    assert_eq!(keying.phase(), TxPhase::Cancelled);
    assert_eq!(keying.generated_samples(), 0);
    let mut failed = Keying::new(48_000, 8_000);
    assert!(failed.step(KeyingEvent::Failed));
    assert!(failed.step(KeyingEvent::Exhausted));
    assert_eq!(failed.phase(), TxPhase::Failed);
}

#[test]
fn a_frame_starts_the_device_once_the_queue_is_primed() {
    assert_eq!(tx_step(TxPhase::Failed, true), TxStep::Fail);
    assert_eq!(tx_step(TxPhase::Priming, false), TxStep::Wait);
    assert_eq!(tx_step(TxPhase::Producing, false), TxStep::StartPlayback);
    assert_eq!(tx_step(TxPhase::Draining, false), TxStep::StartPlayback);
    assert_eq!(tx_step(TxPhase::Producing, true), TxStep::Wait);
}

#[test]
fn an_underrun_is_reported_once_a_session() {
    assert!(report_underrun(true, None, 3));
    assert!(!report_underrun(true, Some(3), 3));
    assert!(report_underrun(true, Some(2), 3));
    assert!(!report_underrun(false, None, 3));
}

#[test]
fn a_drained_stream_is_closed_and_the_next_message_goes() {
    assert_eq!(wrap_up(true, true, true), Wrapup { finish: true, next: true });
    assert_eq!(wrap_up(true, true, false), Wrapup { finish: false, next: false });
    assert_eq!(wrap_up(true, false, true), Wrapup { finish: false, next: false });
    assert_eq!(wrap_up(false, false, false), Wrapup { finish: false, next: true });
    assert_eq!(wrap_up(false, true, true), Wrapup { finish: false, next: true });
}
