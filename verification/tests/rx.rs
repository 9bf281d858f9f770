use grayline_apps::rx::{
    DecodePath, MONITOR_POINT_RATE_HZ, SCOPE_POINTS_LIMIT, bin_at, merge_points, merge_texts, monitor_decimation,
};

fn owned(texts: &[&str]) -> Vec<String> {
    texts.iter().map(|text| (*text).to_owned()).collect()
}

#[test]
fn uncollected_text_stays_in_front_of_what_follows_it() {
    let mut texts = owned(&["DE JL1HIS"]);
    merge_texts(&mut texts, owned(&["CQ "]));
    assert_eq!(texts[0], "CQ DE JL1HIS");
}

#[test]
fn a_snapshot_without_text_keeps_what_was_waiting() {
    let mut texts = owned(&[""]);
    merge_texts(&mut texts, owned(&["RY"]));
    assert_eq!(texts[0], "RY");
}

#[test]
fn columns_that_do_not_line_up_are_left_as_they_are() {
    let mut texts = owned(&["A", "B"]);
    merge_texts(&mut texts, owned(&["X"]));
    assert_eq!(texts, owned(&["A", "B"]));
    let mut texts = owned(&["A", "B"]);
    merge_texts(&mut texts, owned(&["X", ""]));
    assert_eq!(texts, owned(&["XA", "B"]));
}

#[test]
fn uncollected_pairs_stay_in_front_of_the_ones_that_follow_them() {
    let points = merge_points(vec![(2.0_f64, 0.0_f64)], vec![(1.0, 0.0)]);
    assert_eq!(points.iter().map(|pair| pair.0).collect::<Vec<_>>(), [1.0, 2.0]);
}

#[test]
fn a_trace_nobody_collected_does_not_grow_without_end() {
    let mut points = vec![(0.0_f64, 0.0_f64); SCOPE_POINTS_LIMIT];
    for _ in 0..3 {
        points = merge_points(vec![(0.0, 0.0); SCOPE_POINTS_LIMIT], points);
    }
    assert_eq!(points.len(), SCOPE_POINTS_LIMIT);
}

#[test]
fn the_oldest_pairs_are_the_ones_dropped() {
    let earlier: Vec<u32> = (0..SCOPE_POINTS_LIMIT as u32).collect();
    let points = merge_points(vec![u32::MAX; 3], earlier);
    assert_eq!(points.len(), SCOPE_POINTS_LIMIT);
    assert_eq!(points[0], 3);
    assert_eq!(&points[SCOPE_POINTS_LIMIT - 3..], [u32::MAX; 3]);
    assert_eq!(merge_points(vec![5_u32], Vec::new()), [5]);
}

#[test]
fn every_decode_path_is_named() {
    assert_eq!(DecodePath::ALL, [DecodePath::Resonator]);
    assert_eq!(DecodePath::default(), DecodePath::Resonator);
    assert_eq!(DecodePath::Resonator.label_key(), "path-resonator");
}

#[test]
fn the_tap_keeps_about_the_same_rate_whatever_the_device_runs_at() {
    for rate in [8_000_u32, 11_025, 22_050, 44_100, 48_000, 96_000] {
        let kept = f64::from(rate) / monitor_decimation(rate) as f64;
        assert!(kept <= f64::from(MONITOR_POINT_RATE_HZ), "{rate} Hz keeps {kept} pairs a second");
        assert!(kept >= f64::from(MONITOR_POINT_RATE_HZ) / 2.0, "{rate} Hz keeps only {kept} pairs a second");
    }
    assert_eq!(monitor_decimation(0), 1);
    assert_eq!(monitor_decimation(4_000), 1);
    assert_eq!(monitor_decimation(4_001), 2);
    assert_eq!(monitor_decimation(48_000), 12);
}

#[test]
fn every_column_names_a_bin_that_exists() {
    for (columns, bins) in [(8_usize, 4_usize), (4, 8), (1, 1)] {
        for column in 0..=columns {
            assert!(bin_at(column, columns, bins) < bins);
        }
    }
    assert_eq!(bin_at(2, 8, 4), 1);
    assert_eq!(bin_at(3, 4, 8), 6);
    assert_eq!(bin_at(4, 4, 8), 7);
}
