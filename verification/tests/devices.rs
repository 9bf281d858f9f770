use grayline_apps::devices::{choose_device, position_of};
use grayline_apps::text::same_text;

fn names(list: &[&str]) -> Vec<String> {
    list.iter().map(|name| (*name).to_owned()).collect()
}

#[test]
fn the_device_chosen_last_time_is_opened_again() {
    let listed = names(&["Built-in", "USB CODEC", "Line In"]);
    assert_eq!(choose_device(&listed, Some("USB CODEC"), Some(0)), Some(1));
}

#[test]
fn a_device_that_went_away_gives_way_to_the_default() {
    let listed = names(&["Built-in", "Line In"]);
    assert_eq!(choose_device(&listed, Some("USB CODEC"), Some(1)), Some(1));
    assert_eq!(choose_device(&listed, None, Some(1)), Some(1));
}

#[test]
fn without_a_default_the_first_device_is_opened() {
    let listed = names(&["Built-in", "Line In"]);
    assert_eq!(choose_device(&listed, Some("USB CODEC"), None), Some(0));
    assert_eq!(choose_device(&listed, None, Some(7)), Some(0));
    assert_eq!(choose_device(&[], Some("USB CODEC"), Some(0)), None);
}

#[test]
fn the_first_device_of_a_name_is_the_one_found() {
    let listed = names(&["A", "B", "B"]);
    assert_eq!(position_of(&listed, "B"), Some(1));
    assert_eq!(position_of(&listed, "C"), None);
    assert!(same_text("B", "B"));
    assert!(!same_text("B", "BB"));
}
