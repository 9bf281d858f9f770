use grayline_apps::chart::{Published, RxProgress, StripUpdate, description_key, geometry_text, merge_strip, title};

fn update(first_line: usize, lines: usize, replaces_all: bool) -> StripUpdate {
    StripUpdate {
        width: 4,
        first_line,
        gray: vec![first_line as u8; lines * 4],
        replaces_all,
    }
}

#[test]
fn contiguous_columns_are_joined_rather_than_dropped() {
    let strip = merge_strip(Some(update(0, 2, true)), Some(update(2, 3, false))).unwrap();
    assert_eq!(strip.first_line, 0);
    assert_eq!(strip.lines(), 5);
    assert!(strip.replaces_all, "the earlier update's own claim has to survive");
    assert_eq!(strip.gray, [vec![0_u8; 8], vec![2_u8; 12]].concat());
}

#[test]
fn a_redraw_replaces_what_was_waiting() {
    let strip = merge_strip(Some(update(0, 2, false)), Some(update(0, 9, true))).unwrap();
    assert_eq!(strip.lines(), 9);
    assert!(strip.replaces_all);
}

#[test]
fn a_snapshot_without_columns_keeps_the_ones_waiting() {
    let strip = merge_strip(Some(update(0, 2, true)), None).unwrap();
    assert_eq!(strip.lines(), 2);
    assert_eq!(merge_strip(None, Some(update(3, 1, false))), Some(update(3, 1, false)));
    assert_eq!(merge_strip(None, None), None);
}

#[test]
fn columns_that_do_not_meet_are_not_joined() {
    let strip = merge_strip(Some(update(0, 2, false)), Some(update(5, 1, false))).unwrap();
    assert_eq!(strip, update(5, 1, false));
    let mut wider = update(2, 1, false);
    wider.width = 8;
    wider.gray = vec![2; 8];
    assert_eq!(merge_strip(Some(update(0, 2, false)), Some(wider.clone())), Some(wider));
}

#[test]
fn an_update_counts_whole_lines_and_says_where_it_ends() {
    let mut strip = update(3, 2, false);
    assert_eq!(strip.lines(), 2);
    assert_eq!(strip.end(), 5);
    strip.gray.push(9);
    assert_eq!(strip.lines(), 2);
    strip.width = 0;
    assert_eq!(strip.lines(), 0);
    assert_eq!(strip.end(), 3);
}

#[test]
fn extending_appends_only_what_follows_on() {
    let mut earlier = update(0, 1, false);
    assert!(earlier.extend(&update(1, 2, false)));
    assert_eq!(earlier.lines(), 3);
    assert!(!earlier.extend(&update(7, 1, false)));
    assert!(!earlier.extend(&update(3, 1, true)));
    assert_eq!(earlier.lines(), 3);
}

#[test]
fn only_a_live_reception_is_active() {
    assert!(RxProgress::Phasing.is_active());
    assert!(RxProgress::Imaging { lines: 1 }.is_active());
    assert!(!RxProgress::Idle.is_active());
    assert!(!RxProgress::Complete { lines: 1 }.is_active());
    assert!(RxProgress::Starting.is_active());
    assert!(!RxProgress::Stopped { lines: 4 }.is_active());
}

#[test]
fn the_progress_says_how_many_lines_were_drawn() {
    assert_eq!(RxProgress::default(), RxProgress::Idle);
    assert_eq!(RxProgress::Idle.lines(), 0);
    assert_eq!(RxProgress::Phasing.lines(), 0);
    assert_eq!(RxProgress::Imaging { lines: 7 }.lines(), 7);
    assert_eq!(RxProgress::Complete { lines: 9 }.lines(), 9);
    assert_eq!(RxProgress::Stopped { lines: 2 }.lines(), 2);
}

#[test]
fn each_state_has_its_own_label() {
    let states = [
        (RxProgress::Idle, "state-idle"),
        (RxProgress::Starting, "state-starting"),
        (RxProgress::Phasing, "state-phasing"),
        (RxProgress::Imaging { lines: 1 }, "state-imaging"),
        (RxProgress::Complete { lines: 1 }, "state-complete"),
        (RxProgress::Stopped { lines: 1 }, "state-stopped"),
    ];
    for (state, key) in states {
        assert_eq!(state.label_key(), key);
    }
}

#[test]
fn only_the_lines_not_yet_given_are_published() {
    let mut published = Published::start();
    assert_eq!(published.due(0, 0), None);
    assert_eq!(published.due(3, 3), Some((0, false)));
    published.commit(3, 3);
    assert_eq!(published.due(3, 3), None);
    assert_eq!(published.due(5, 5), Some((3, false)));
}

#[test]
fn a_correction_republishes_every_line() {
    let mut published = Published::start();
    published.commit(4, 4);
    assert_eq!(published.due(4, 5), Some((0, true)));
    assert_eq!(published.due(5, 7), Some((0, true)));
}

#[test]
fn a_reception_in_progress_draws_its_geometry() {
    assert_eq!(geometry_text(576, 120), "IOC 576 / 120 LPM");
    assert_eq!(geometry_text(288, 60), "IOC 288 / 60 LPM");
    assert_eq!(description_key(RxProgress::Imaging { lines: 12 }, true), Some("state-with-lines"));
    assert_eq!(description_key(RxProgress::Phasing, true), Some("state-with-format"));
    assert_eq!(description_key(RxProgress::Imaging { lines: 12 }, false), None);
}

#[test]
fn the_title_says_what_the_receiver_is_doing() {
    assert!(!title("Grayline WEFAX 1.0", RxProgress::Idle, "Idle").contains('\u{2014}'));
    assert_eq!(
        title("Grayline WEFAX 1.0", RxProgress::Imaging { lines: 3 }, "Receiving"),
        "Grayline WEFAX 1.0 \u{2014} Receiving"
    );
}
