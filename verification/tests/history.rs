use grayline_apps::history::{NOTHING_TO_SAVE, chart_name, check_chart, file_name};
use grayline_apps::text::push_decimal;
use grayline_apps::clock::clock_at;
use jiff::Zoned;

#[test]
fn a_chart_is_named_for_when_it_arrived_and_what_it_is() {
    let at: Zoned = "2026-08-10T09:07:05+09:00[Asia/Tokyo]".parse().unwrap();
    assert_eq!(file_name(576, 120, &clock_at(&at)), "20260810-090705-IOC576-120LPM.png");
    assert_eq!(file_name(288, 240, &clock_at(&at)), "20260810-090705-IOC288-240LPM.png");
}

#[test]
fn a_chart_with_no_pixels_is_refused() {
    assert_eq!(check_chart(0, 0, 0), Err(NOTHING_TO_SAVE.to_owned()));
    assert!(check_chart(4, 2, 3).is_err());
    assert_eq!(check_chart(8, 3, 24), Ok(()));
    assert!(check_chart(usize::MAX, 2, 0).is_err());
}

#[test]
fn a_name_carries_the_geometry_in_decimal() {
    assert_eq!(chart_name("STAMP", 0, 60), "STAMP-IOC0-60LPM.png");
    let mut text = String::from("n=");
    push_decimal(&mut text, 4_294_967_295);
    assert_eq!(text, "n=4294967295");
    let mut text = String::new();
    push_decimal(&mut text, 10);
    assert_eq!(text, "10");
}
