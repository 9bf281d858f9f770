use grayline_apps::publish::Throttle;

#[test]
fn a_block_held_back_is_published_when_the_audio_stops() {
    let mut throttle = Throttle::new();
    assert!(!throttle.on_block(false, false));
    assert!(throttle.unpublished);
    assert!(throttle.on_idle(false));
    assert!(!throttle.on_idle(false));
}

#[test]
fn a_due_or_urgent_block_is_published_at_once() {
    let mut throttle = Throttle::new();
    assert!(throttle.on_block(true, false));
    assert!(!throttle.unpublished);
    assert!(throttle.on_block(false, true));
    assert!(!throttle.on_idle(false));
}

#[test]
fn a_failure_or_a_change_is_published_without_audio() {
    let mut throttle = Throttle::new();
    assert!(throttle.on_idle(true));
    throttle.note_change(true);
    assert!(throttle.on_idle(false));
    throttle.note_change(false);
    assert!(!throttle.on_idle(false));
}
