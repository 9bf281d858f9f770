use grayline_apps::input::first_unsendable;
use grayline_apps::macros::{
    Contact, DEFAULT_RST, Station, default_macros, expand, expand_with, greeting_at, or_else, values,
};
use grayline_apps::clock::{Clock, clock_at};
use jiff::civil::date;

fn station() -> Station {
    Station {
        callsign: "JL1HIS".to_owned(),
        name: "YU".to_owned(),
        qth: "TOKYO".to_owned(),
    }
}

fn contact() -> Contact {
    Contact {
        callsign: "JA1ZZZ".to_owned(),
        name: "TARO".to_owned(),
        qth: "OSAKA".to_owned(),
        rst_sent: "579".to_owned(),
        rst_received: "599".to_owned(),
    }
}

fn at(hour: i8) -> Clock {
    clock_at(&date(2026, 9, 13).at(hour, 34, 0, 0).in_tz("UTC").expect("a valid instant"))
}

#[test]
fn a_macro_is_written_from_the_station_and_the_contact() {
    let expanded = expand(
        "${contact.callsign} DE ${station.callsign} UR ${contact.rst.sent}",
        &station(),
        &contact(),
        &at(9),
    );
    assert_eq!(expanded, "JA1ZZZ DE JL1HIS UR 579");
}

#[test]
fn an_unknown_name_falls_back_to_the_customary_one() {
    let mut contact = contact();
    contact.name.clear();
    assert_eq!(expand("HI ${contact.name}", &station(), &contact, &at(9)), "HI OM");
}

#[test]
fn a_report_that_was_cleared_falls_back_to_the_usual_one() {
    let mut contact = contact();
    contact.rst_sent.clear();
    assert_eq!(expand("RST ${contact.rst.sent}", &station(), &contact, &at(9)), "RST 599");
}

#[test]
fn an_unset_callsign_expands_to_nothing() {
    let contact = Contact::default();
    assert_eq!(expand("[${contact.callsign}]", &station(), &contact, &at(9)), "[]");
}

#[test]
fn an_unknown_name_is_left_where_it_was_written() {
    let expanded = expand("DE ${station.kallsign}", &station(), &contact(), &at(9));
    assert_eq!(expanded, "DE ${station.kallsign}");
    assert_eq!(first_unsendable(&expanded), Some('{'));
}

#[test]
fn an_unclosed_name_is_left_as_it_stands() {
    assert_eq!(
        expand("DE ${station.callsign and more", &station(), &contact(), &at(9)),
        "DE ${station.callsign and more"
    );
}

#[test]
fn text_with_no_names_in_it_is_unchanged() {
    assert_eq!(expand("RYRYRY", &station(), &contact(), &at(9)), "RYRYRY");
    assert_eq!(expand("", &station(), &contact(), &at(9)), "");
}

#[test]
fn names_are_filled_in_wherever_they_appear() {
    let expanded = expand(
        "${station.callsign} ${station.callsign} ${station.callsign}",
        &station(),
        &contact(),
        &at(9),
    );
    assert_eq!(expanded, "JL1HIS JL1HIS JL1HIS");
}

#[test]
fn the_greeting_follows_the_time_of_day() {
    for (hour, expected) in [(0, "GM"), (11, "GM"), (12, "GA"), (17, "GA"), (18, "GE"), (23, "GE")] {
        assert_eq!(expand("${greeting}", &station(), &contact(), &at(hour)), expected);
        assert_eq!(greeting_at(hour), expected);
    }
}

#[test]
fn the_date_and_the_time_are_universal() {
    let now = clock_at(&date(2026, 9, 13).at(1, 5, 0, 0).in_tz("Asia/Tokyo").expect("a valid instant"));
    assert_eq!(expand("${date.utc}", &station(), &contact(), &now), "2026-09-12");
    assert_eq!(expand("${time.utc}", &station(), &contact(), &now), "1605");
}

#[test]
fn the_macros_that_ship_are_sendable_once_they_are_written() {
    for shipped in default_macros() {
        let expanded = expand(&shipped.text, &station(), &contact(), &at(9));
        assert_eq!(first_unsendable(&expanded), None, "{} expands to {expanded:?}", shipped.label);
    }
}

#[test]
fn the_macros_that_ship_are_sendable_before_anything_is_filled_in() {
    for shipped in default_macros() {
        let expanded = expand(&shipped.text, &Station::default(), &Contact::default(), &at(9));
        assert_eq!(first_unsendable(&expanded), None, "{} expands to {expanded:?}", shipped.label);
    }
}

#[test]
fn every_name_in_the_table_is_a_name_that_expands() {
    for (name, _) in values(&station(), &contact(), &at(9)) {
        let written = format!("${{{name}}}");
        assert_ne!(
            expand(&written, &station(), &contact(), &at(9)),
            written,
            "{name} is in the table but not filled in"
        );
    }
}

#[test]
fn the_names_are_listed_the_same_way_every_time() {
    let names: Vec<String> = values(&station(), &contact(), &at(9)).into_iter().map(|(name, _)| name).collect();
    let mut sorted = names.clone();
    sorted.sort();
    assert_eq!(names, sorted);
    assert_eq!(names.len(), 11);
}

#[test]
fn clearing_a_contact_leaves_the_report_this_station_gives_out() {
    let mut contact = contact();
    contact.clear();
    assert!(contact.is_empty());
    assert_eq!(contact.rst_sent, DEFAULT_RST);
}

#[test]
fn the_first_entry_of_a_table_wins() {
    let table = vec![
        ("call".to_owned(), "ONE".to_owned()),
        ("call".to_owned(), "TWO".to_owned()),
    ];
    assert_eq!(expand_with("${call} ${call}", &table), "ONE ONE");
    assert_eq!(expand_with("$${call}}", &table), "$ONE}");
    assert_eq!(expand_with("${}", &table), "${}");
}

#[test]
fn an_empty_value_gives_way_to_its_fallback() {
    assert_eq!(or_else("", "OM"), "OM");
    assert_eq!(or_else("TARO", "OM"), "TARO");
}

#[test]
fn an_expanded_macro_is_brought_into_the_shape_the_field_holds() {
    let mut station = station();
    station.callsign = "jl1his".to_owned();
    let macros = vec![grayline_apps::macros::Macro {
        label: "CQ".to_owned(),
        text: "cq de ${station.callsign}\n".to_owned(),
        send: false,
    }];
    assert_eq!(
        grayline_apps::macros::expand_macro(&macros, 0, &station, &contact(), &at(9)).as_deref(),
        Some("CQ DE JL1HIS\n")
    );
}

#[test]
fn a_macro_that_is_not_there_does_nothing() {
    let macros = default_macros();
    assert_eq!(grayline_apps::macros::expand_macro(&macros, 99, &station(), &contact(), &at(9)), None);
}
