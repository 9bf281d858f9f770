use grayline_apps::input::{first_unsendable, is_sendable, normalize, runs, typed};

fn owned(expected: &[(bool, &str)]) -> Vec<(bool, String)> {
    expected.iter().map(|(flag, text)| (*flag, text.to_string())).collect()
}

#[test]
fn the_sendable_characters_are_the_ones_the_encoder_has_a_code_for() {
    for (character, expected) in [
        ('A', true),
        ('a', true),
        ('1', true),
        (' ', true),
        ('-', true),
        ('/', true),
        ('\n', true),
        ('\r', true),
        ('%', false),
        ('{', false),
        ('}', false),
        ('あ', false),
        ('*', false),
    ] {
        assert_eq!(is_sendable(character), expected, "{character:?}");
    }
}

#[test]
fn typing_drops_what_cannot_be_sent_and_upper_cases_the_rest() {
    assert_eq!(typed("cq"), "CQ");
    assert_eq!(typed("%"), "");
    assert_eq!(typed("de jl1his"), "DE JL1HIS");
}

#[test]
fn upper_casing_does_not_invent_characters() {
    assert_eq!(normalize("ß"), "ß");
    assert_eq!(first_unsendable(&normalize("ß")), Some('ß'));
}

#[test]
fn pasting_keeps_what_cannot_be_sent() {
    assert_eq!(normalize("100% copy"), "100% COPY");
    assert_eq!(first_unsendable(&normalize("100% copy")), Some('%'));
}

#[test]
fn pasted_line_endings_become_the_one_the_field_holds() {
    assert_eq!(normalize("CQ\r\nDE\rTEST\n"), "CQ\nDE\nTEST\n");
}

#[test]
fn a_message_with_nothing_wrong_in_it_has_no_refused_character() {
    assert_eq!(first_unsendable("CQ CQ DE JL1HIS K"), None);
    assert_eq!(first_unsendable(""), None);
}

#[test]
fn the_first_refused_character_is_the_one_reported() {
    assert_eq!(first_unsendable("OK % AND *"), Some('%'));
}

#[test]
fn text_that_can_all_be_sent_is_one_run() {
    assert_eq!(runs("CQ DE"), owned(&[(true, "CQ DE")]));
    assert_eq!(runs(""), owned(&[]));
}

#[test]
fn refused_characters_are_split_into_runs_of_their_own() {
    assert_eq!(runs("OK %% GO"), owned(&[(true, "OK "), (false, "%%"), (true, " GO")]));
    assert_eq!(runs("%A"), owned(&[(false, "%"), (true, "A")]));
    assert_eq!(runs("A%"), owned(&[(true, "A"), (false, "%")]));
}

#[test]
fn runs_are_split_on_character_boundaries() {
    assert_eq!(runs("あA"), owned(&[(false, "あ"), (true, "A")]));
    assert_eq!(runs("ああAA"), owned(&[(false, "ああ"), (true, "AA")]));
}

#[test]
fn a_lone_carriage_return_and_lower_case_letters_are_brought_into_shape() {
    assert_eq!(normalize("a\rb"), "A\nB");
    assert_eq!(normalize("\r"), "\n");
    assert_eq!(typed("a{b}"), "AB");
}

#[test]
fn a_macro_is_written_into_the_draft_at_the_caret() {
    let table = vec![("station.callsign".to_owned(), "JL1HIS".to_owned())];
    let expanded = grayline_apps::macros::expand_with("DE ${station.callsign}", &table);
    let (draft, caret) = grayline_apps::input::insert_at("RR ", 3, &expanded);
    assert_eq!(draft, "RR DE JL1HIS");
    assert_eq!(caret, 12);
}

#[test]
fn a_macro_written_into_the_middle_of_a_draft_stays_in_the_middle() {
    let table = vec![("station.callsign".to_owned(), "JL1HIS".to_owned())];
    let expanded = grayline_apps::macros::expand_with("${station.callsign}", &table);
    let (draft, caret) = grayline_apps::input::insert_at("DE  K", 3, &expanded);
    assert_eq!(draft, "DE JL1HIS K");
    assert_eq!(caret, 9);
}

#[test]
fn a_caret_past_the_end_writes_at_the_end() {
    assert_eq!(grayline_apps::input::insert_at("CQ", 40, " DE"), ("CQ DE".to_owned(), 5));
}

#[test]
fn a_callsign_taken_from_the_received_text_is_brought_into_shape() {
    assert_eq!(normalize("ja1zzz/1"), "JA1ZZZ/1");
}
