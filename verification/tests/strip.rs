use grayline_apps::chart::StripUpdate;
use grayline_apps::strip::{INITIAL_CAPACITY, MAX_CAPACITY, Refresh, Strip, Upload, rotate, upload_runs};

fn update(width: usize, first_line: usize, lines: usize, replaces_all: bool) -> StripUpdate {
    StripUpdate {
        width,
        first_line,
        gray: (0..lines * width).map(|index| (first_line + index) as u8).collect(),
        replaces_all,
    }
}

#[test]
fn columns_accumulate_as_lines_arrive() {
    let mut strip = Strip::default();
    assert!(strip.is_empty());

    assert!(strip.apply(&update(8, 0, 3, false)).is_some());
    assert_eq!(strip.lines(), 3);
    assert_eq!(strip.width(), 8);

    assert!(strip.apply(&update(8, 3, 2, false)).is_some());
    assert_eq!(strip.lines(), 5);
    assert_eq!(strip.gray().len(), 5 * 8);
}

#[test]
fn a_redraw_replaces_everything() {
    let mut strip = Strip::default();
    strip.apply(&update(8, 0, 5, false));
    strip.apply(&update(8, 0, 2, true));
    assert_eq!(strip.lines(), 2);
    assert_eq!(strip.gray().len(), 2 * 8);
}

#[test]
fn a_gap_in_the_columns_is_refused() {
    let mut strip = Strip::default();
    strip.apply(&update(8, 0, 3, false));
    assert!(strip.apply(&update(8, 9, 2, false)).is_none());
    assert_eq!(strip.lines(), 3);
}

#[test]
fn a_new_line_length_starts_the_strip_over() {
    let mut strip = Strip::default();
    strip.apply(&update(8, 0, 4, false));
    strip.apply(&update(16, 0, 1, false));
    assert_eq!(strip.width(), 16);
    assert_eq!(strip.lines(), 1);
}

#[test]
fn an_empty_update_says_nothing() {
    let mut strip = Strip::default();
    assert!(strip.apply(&update(0, 0, 0, false)).is_none());
    assert!(strip.is_empty());
}

#[test]
fn clearing_forgets_the_picture() {
    let mut strip = Strip::default();
    strip.apply(&update(8, 0, 4, false));
    strip.clear();
    assert!(strip.is_empty());
    assert_eq!(strip.width(), 0);
    assert!(strip.gray().is_empty());
    assert_eq!(strip.capacity(), 0);
}

#[test]
fn a_line_becomes_a_column_with_its_start_at_the_bottom() {
    let gray = [0_u8, 1, 2, 3, 4, 5];
    let pixels = rotate(&gray, 3, 0, 2);
    assert_eq!(pixels.len(), 2 * 3);
    assert_eq!(pixels[0], 2);
    assert_eq!(pixels[1], 5);
    assert_eq!(pixels[4], 0);
    assert_eq!(pixels[5], 3);
}

#[test]
fn a_line_past_the_picture_is_black() {
    let gray = [7_u8, 8];
    assert_eq!(rotate(&gray, 2, 1, 1), [0, 0]);
}

#[test]
fn the_texture_grows_by_doubling_up_to_its_limit() {
    let mut strip = Strip::default();
    strip.apply(&update(4, 0, 1, false));
    assert_eq!(strip.capacity(), INITIAL_CAPACITY);

    strip.apply(&update(4, 1, INITIAL_CAPACITY, false));
    assert_eq!(strip.capacity(), INITIAL_CAPACITY * 2);

    strip.apply(&update(1, 0, MAX_CAPACITY * 2, false));
    assert_eq!(strip.capacity(), MAX_CAPACITY);
}

#[test]
fn an_update_says_what_the_texture_has_to_be_told() {
    let mut strip = Strip::default();
    assert_eq!(
        strip.apply(&update(4, 0, 3, false)),
        Some(Refresh { rebuilt: true, first: 0, end: 3 })
    );
    assert_eq!(
        strip.apply(&update(4, 3, 2, false)),
        Some(Refresh { rebuilt: false, first: 3, end: 5 })
    );
    assert_eq!(
        strip.apply(&update(4, 0, 2, true)),
        Some(Refresh { rebuilt: false, first: 0, end: 2 })
    );
}

#[test]
fn a_run_that_crosses_the_end_of_the_texture_is_written_as_two() {
    assert_eq!(
        upload_runs(6, 10, 8),
        [Upload { offset: 6, line: 6, run: 2 }, Upload { offset: 0, line: 8, run: 2 }]
    );
    assert_eq!(upload_runs(0, 20, 8)[0], Upload { offset: 4, line: 12, run: 4 });
    assert!(upload_runs(5, 5, 8).is_empty());
}
