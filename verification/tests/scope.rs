use grayline_apps::scope::{ScopeState, TRACE_POINTS, keep_newest};

type Scope = ScopeState<(f64, f64), f32, f32>;

fn opened() -> Scope {
    let mut scope = Scope::new();
    scope.set_open(true);
    // Naming the window's labels is something worth drawing.
    scope.note_moved();
    scope
}

#[test]
fn a_trace_keeps_the_pairs_it_draws_and_drops_the_rest() {
    let mut scope = opened();
    let pairs = TRACE_POINTS + 200;
    scope.push((0..pairs).map(|index| (index as f64, 0.0)).collect(), Vec::new(), 0.0);

    assert_eq!(scope.points().len(), TRACE_POINTS);
    assert_eq!(scope.points().last().map(|pair| pair.0), Some((pairs - 1) as f64));
}

#[test]
fn a_frame_without_a_band_keeps_the_one_before_it() {
    let mut scope = opened();
    scope.push(vec![(0.5, 0.1)], vec![1.0, 2.0, 3.0], 23.4);
    scope.push(vec![(0.4, 0.2)], Vec::new(), 0.0);

    assert_eq!(scope.band(), [1.0, 2.0, 3.0]);
    assert_eq!(scope.bin(), Some(&23.4));
    assert_eq!(scope.points(), [(0.5, 0.1), (0.4, 0.2)]);
}

#[test]
fn closing_the_window_throws_away_what_was_on_it() {
    let mut scope = opened();
    scope.push(vec![(0.5, 0.1)], vec![1.0, 2.0], 23.4);

    scope.set_open(false);
    assert!(scope.points().is_empty());
    assert!(scope.band().is_empty());
    assert!(!scope.is_open());
}

#[test]
fn a_close_request_is_taken_once() {
    let mut scope = opened();
    scope.request_close();
    assert!(scope.take_close_request());
    assert!(!scope.take_close_request());
}

#[test]
fn opening_the_window_forgets_the_close_that_shut_it() {
    let mut scope = opened();
    scope.request_close();
    scope.set_open(false);
    scope.set_open(true);
    assert!(!scope.take_close_request());
}

#[test]
fn anything_worth_drawing_asks_for_a_frame() {
    let mut scope = opened();
    assert!(scope.take_moved());

    scope.push(vec![(0.5, 0.1)], Vec::new(), 0.0);
    assert!(scope.take_moved());

    scope.note_moved();
    assert!(scope.take_moved());
    assert!(!scope.take_moved());
}

#[test]
fn the_newest_pairs_are_kept() {
    assert_eq!(keep_newest(vec![1, 2, 3], vec![4, 5], 3), [3, 4, 5]);
    assert_eq!(keep_newest(vec![1], vec![2], 3), [1, 2]);
    assert_eq!(keep_newest(Vec::<u8>::new(), Vec::new(), 0), Vec::<u8>::new());
}
