use grayline_apps::scrollback::{LINE_LIMIT, Scrollback, word_at, word_at_char};

fn owned(expected: &[(bool, &str)]) -> Vec<(bool, String)> {
    expected.iter().map(|(flag, text)| (*flag, text.to_string())).collect()
}

#[test]
fn a_teleprinter_line_ending_is_one_break() {
    let mut scrollback = Scrollback::default();
    scrollback.push_str("CQ\r\r\nDE\r\r\nJL1HIS");
    assert_eq!(scrollback.text(), "CQ\nDE\nJL1HIS");
}

#[test]
fn a_break_with_nothing_after_it_is_not_printed_yet() {
    let mut scrollback = Scrollback::default();
    scrollback.push_str("RY\r\n");
    assert_eq!(scrollback.text(), "RY");
    scrollback.push_str("RY");
    assert_eq!(scrollback.text(), "RY\nRY");
}

#[test]
fn the_bell_is_not_printed() {
    let mut scrollback = Scrollback::default();
    scrollback.push_str("A\u{7}B");
    assert_eq!(scrollback.text(), "AB");
}

#[test]
fn sent_and_received_text_are_kept_apart_in_one_transcript() {
    let mut scrollback = Scrollback::default();
    scrollback.push_str("CQ DE JA1ZZZ K\n");
    scrollback.push_sent("JA1ZZZ DE JL1HIS\n");
    scrollback.push_str("R R");

    assert_eq!(scrollback.text(), "CQ DE JA1ZZZ K\nJA1ZZZ DE JL1HIS\nR R");
    assert_eq!(
        scrollback.runs(),
        owned(&[(false, "CQ DE JA1ZZZ K\n"), (true, "JA1ZZZ DE JL1HIS"), (false, "\nR R")])
    );
}

#[test]
fn text_sent_in_pieces_is_one_run() {
    let mut scrollback = Scrollback::default();
    for piece in ["CQ", " ", "DE"] {
        scrollback.push_sent(piece);
    }
    assert_eq!(scrollback.runs(), owned(&[(true, "CQ DE")]));
}

#[test]
fn a_transcript_with_nothing_sent_in_it_is_one_run() {
    let mut scrollback = Scrollback::default();
    scrollback.push_str("RYRY");
    assert_eq!(scrollback.runs(), owned(&[(false, "RYRY")]));
}

#[test]
fn sent_runs_follow_the_text_when_the_oldest_lines_are_dropped() {
    let mut scrollback = Scrollback::default();
    for line in 0..LINE_LIMIT * 2 {
        scrollback.push_str(&format!("{line}\n"));
    }
    scrollback.push_sent("DE JL1HIS");

    let runs = scrollback.runs();
    assert_eq!(runs.last(), Some(&(true, "DE JL1HIS".to_string())));
    let marked: String = runs.iter().filter(|(sent, _)| *sent).map(|(_, run)| run.as_str()).collect();
    assert_eq!(marked, "DE JL1HIS");
}

#[test]
fn sent_text_stays_marked_through_a_trim() {
    let mut scrollback = Scrollback::default();
    for line in 0..LINE_LIMIT * 2 {
        scrollback.push_sent(&format!("{line}\n"));
    }
    let printed = scrollback.text().replace('\n', "");
    let marked: String = scrollback
        .runs()
        .iter()
        .filter(|(sent, _)| *sent)
        .map(|(_, run)| run.as_str())
        .collect();
    assert_eq!(marked, printed);
}

#[test]
fn a_word_is_picked_out_of_the_line_that_printed_it() {
    for (index, expected) in [
        (0, Some("CQ")),
        (1, Some("CQ")),
        (2, Some("CQ")),
        (3, Some("DE")),
        (6, Some("JA1ZZZ/1")),
        (10, Some("JA1ZZZ/1")),
        (15, Some("K")),
    ] {
        assert_eq!(word_at("CQ DE JA1ZZZ/1 K", index).as_deref(), expected, "{index}");
    }
}

#[test]
fn a_position_in_empty_space_picks_no_word() {
    assert_eq!(word_at("CQ  DE", 3), None);
    assert_eq!(word_at("", 0), None);
    assert_eq!(word_at("CQ", 99), None);
}

#[test]
fn a_line_break_ends_a_word() {
    assert_eq!(word_at("JA1ZZZ\nDE", 0).as_deref(), Some("JA1ZZZ"));
    assert_eq!(word_at("JA1ZZZ\nDE", 7).as_deref(), Some("DE"));
}

#[test]
fn clearing_leaves_nothing_behind() {
    let mut scrollback = Scrollback::default();
    scrollback.push_str("TEST\r\n");
    scrollback.clear();
    assert!(scrollback.is_empty());

    scrollback.push_str("AGAIN");
    assert_eq!(scrollback.text(), "AGAIN");
}

#[test]
fn the_oldest_lines_are_dropped_once_the_pane_is_full() {
    let mut scrollback = Scrollback::default();
    for line in 0..LINE_LIMIT * 2 {
        scrollback.push_str(&format!("{line}\r\n"));
    }
    scrollback.push_str("last");

    let text = scrollback.text();
    let lines: Vec<&str> = text.lines().collect();
    assert!(lines.len() <= LINE_LIMIT, "kept {} lines", lines.len());
    assert_eq!(lines[lines.len() - 1], "last");
    assert!(lines[0].parse::<usize>().is_ok(), "the first line was cut: {:?}", lines[0]);
}

#[test]
fn the_trim_drops_a_tenth_of_the_limit_beyond_what_is_over_it() {
    let mut scrollback = Scrollback::default();
    for line in 0..LINE_LIMIT {
        scrollback.push_str(&format!("{line}\n"));
    }
    assert_eq!(scrollback.text().lines().count(), LINE_LIMIT);
    scrollback.push_str("next");
    let text = scrollback.text();
    let lines: Vec<&str> = text.lines().collect();
    assert_eq!(lines.len(), LINE_LIMIT - LINE_LIMIT / 10);
    assert_eq!(lines[0], format!("{}", LINE_LIMIT / 10 + 1));
    assert_eq!(lines[lines.len() - 1], "next");
}

#[test]
fn every_run_read_together_is_the_transcript() {
    let mut scrollback = Scrollback::default();
    scrollback.push_sent("CQ");
    scrollback.push_str(" DE\r\nJA1ZZZ");
    scrollback.push_sent(" K");
    let whole: String = scrollback.runs().iter().map(|(_, run)| run.as_str()).collect();
    assert_eq!(whole, scrollback.text());
    assert_eq!(scrollback.runs().len(), 3);
}

#[test]
fn breaks_never_stand_together_in_the_transcript() {
    let mut scrollback = Scrollback::default();
    scrollback.push_str("\r\nA\r\r\n\n\nB\n\n");
    scrollback.push_sent("\n\rC");
    let text = scrollback.text();
    assert_eq!(text, "\nA\nB\nC");
    assert!(!text.contains("\n\n"));
    assert!(!text.ends_with('\n'));
}

#[test]
fn sent_text_prints_as_received_text_would() {
    let mut sent = Scrollback::default();
    let mut received = Scrollback::default();
    sent.push_str("RX ");
    received.push_str("RX ");
    sent.push_sent("CQ\r\nDE\u{7} X");
    received.push_str("CQ\r\nDE\u{7} X");
    assert_eq!(sent.text(), received.text());
    assert_eq!(received.runs(), owned(&[(false, "RX CQ\nDE X")]));
    assert_eq!(sent.runs(), owned(&[(false, "RX "), (true, "CQ"), (false, "\n"), (true, "DE X")]));
}

#[test]
fn runs_alternate_and_the_sent_ones_are_what_was_sent() {
    let mut scrollback = Scrollback::default();
    scrollback.push_sent("A");
    scrollback.push_str("b");
    scrollback.push_sent("C");
    scrollback.push_sent("D");
    scrollback.push_str("e");
    let runs = scrollback.runs();
    assert_eq!(runs, owned(&[(true, "A"), (false, "b"), (true, "CD"), (false, "e")]));
    for pair in runs.windows(2) {
        assert_ne!(pair[0].0, pair[1].0);
    }
    assert!(runs.iter().all(|(_, text)| !text.is_empty()));
}

#[test]
fn pushed_text_survives_at_the_end_through_a_trim() {
    let mut scrollback = Scrollback::default();
    for line in 0..LINE_LIMIT {
        scrollback.push_str(&format!("OLD {line}\n"));
    }
    let pushed = "NEW\r\nTEXT\u{7} HERE\nAND MORE";
    scrollback.push_str(pushed);
    let unbroken: String = scrollback.text().chars().filter(|c| *c != '\n').collect();
    assert!(unbroken.ends_with("NEWTEXT HEREAND MORE"));
    assert!(scrollback.text().lines().count() <= LINE_LIMIT);
    assert!(scrollback.text().ends_with("NEW\nTEXT HERE\nAND MORE"));
}

#[test]
fn a_word_is_found_by_its_byte_offset() {
    assert_eq!(word_at("ÄÄ X", 5).as_deref(), Some("X"));
    assert_eq!(word_at("ÄÄ X", 0).as_deref(), Some("ÄÄ"));
    assert_eq!(word_at("ÄÄ X", 4).as_deref(), Some("ÄÄ"));
    assert_eq!(word_at("ÄÄ X", 6).as_deref(), Some("X"));
    assert_eq!(word_at("ÄÄ X", 7), None);
}

#[test]
fn a_word_is_found_by_its_character_position() {
    assert_eq!(word_at_char("ÄÄ X", 3).as_deref(), Some("X"));
    assert_eq!(word_at_char("ÄÄ X", 1).as_deref(), Some("ÄÄ"));
    assert_eq!(word_at_char("ÄÄ X", 5), None);
}

#[test]
fn a_copy_holds_what_the_original_holds() {
    let mut original = Scrollback::default();
    original.push_sent("CQ");
    original.push_str("\nDE X");
    let copy = original.clone();
    assert_eq!(copy.text(), original.text());
    assert_eq!(copy.runs(), original.runs());
}
