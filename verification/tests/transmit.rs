use grayline_apps::input::first_unsendable;
use grayline_apps::transmit::{NO_OUTPUT, Schedule, SentProgress, Sending, Transmit};

/// Samples one character takes at 8000 Hz and 45.45 baud, 7.5 bits long.
const CHARACTER: u64 = 1320;
/// The mark tone held ahead of the first character.
const LEAD: u64 = 4000;

fn ends(text: &str) -> Vec<u64> {
    (1..=text.chars().count() as u64).map(|index| LEAD + index * CHARACTER).collect()
}

fn schedule(text: &str) -> Schedule {
    let ends = ends(text);
    let total = ends.last().copied().unwrap_or(LEAD) + LEAD;
    Schedule::new(ends, total)
}

fn sending(text: &str) -> Sending {
    Sending::new(text.to_owned(), schedule(text))
}

fn queued(transmit: &Transmit) -> Vec<&str> {
    transmit.queued().iter().map(String::as_str).collect()
}

#[test]
fn a_draft_becomes_a_queued_message_and_leaves_the_field_empty() {
    let mut transmit = Transmit::with_draft("CQ DE JL1HIS".to_owned());

    assert!(transmit.queue_draft());

    assert!(transmit.draft.is_empty());
    assert_eq!(queued(&transmit), ["CQ DE JL1HIS"]);
}

#[test]
fn an_empty_draft_queues_nothing() {
    let mut transmit = Transmit::default();
    assert!(!transmit.queue_draft());
    transmit.draft = "\n\n".to_owned();
    assert!(!transmit.queue_draft());
    assert_eq!(transmit.queued().len(), 0);
    assert_eq!(transmit.draft, "\n\n");
}

#[test]
fn a_trailing_line_ending_is_not_part_of_the_message() {
    let mut transmit = Transmit::with_draft("RY RY\r\n".to_owned());
    transmit.queue_draft();
    assert_eq!(queued(&transmit), ["RY RY"]);
}

#[test]
fn a_line_ending_inside_the_draft_stays_in_the_message() {
    let mut transmit = Transmit::with_draft("\nCQ\r\nDE\n".to_owned());
    assert!(transmit.queue_draft());
    assert_eq!(queued(&transmit), ["\nCQ\r\nDE"]);
}

#[test]
fn messages_are_keyed_one_at_a_time_in_the_order_they_were_queued() {
    let mut transmit = Transmit::default();
    transmit.queue("first".to_owned());
    transmit.queue("second".to_owned());

    assert_eq!(transmit.take_next().as_deref(), Some("first"));
    transmit.begin(sending("first"));
    assert_eq!(transmit.take_next(), None);

    transmit.finish();
    assert_eq!(transmit.take_next().as_deref(), Some("second"));
}

#[test]
fn an_empty_message_is_not_queued() {
    let mut transmit = Transmit::default();
    transmit.queue(String::new());
    assert!(!transmit.is_busy());
}

#[test]
fn a_queued_message_can_be_dropped_before_it_starts() {
    let mut transmit = Transmit::default();
    transmit.queue("first".to_owned());
    transmit.queue("second".to_owned());

    transmit.cancel_queued(0);

    assert_eq!(queued(&transmit), ["second"]);
}

#[test]
fn dropping_a_message_that_is_not_there_changes_nothing() {
    let mut transmit = Transmit::default();
    transmit.queue("first".to_owned());
    transmit.cancel_queued(5);
    assert_eq!(queued(&transmit), ["first"]);
}

#[test]
fn abandoning_returns_the_part_that_was_never_played() {
    let text = "RYRYRY";
    let mut transmit = Transmit::default();
    let sending = sending(text);
    let ends = sending.progress(u64::MAX);
    assert_eq!(ends.total, 6);
    let third = self::ends(text)[2];
    transmit.begin(sending);
    transmit.queue("QUEUED".to_owned());

    let returned = transmit.abandon(third);

    assert_eq!(returned, "YRY\nQUEUED");
    assert!(!transmit.is_busy());
}

#[test]
fn abandoning_before_anything_played_returns_the_whole_message() {
    let mut transmit = Transmit::default();
    transmit.begin(sending("CQ"));
    assert_eq!(transmit.abandon(0), "CQ");
}

#[test]
fn abandoning_a_finished_message_hands_back_only_the_queue() {
    let mut transmit = Transmit::default();
    transmit.begin(sending("CQ"));
    transmit.queue("ONE".to_owned());
    transmit.queue("TWO".to_owned());
    assert_eq!(transmit.abandon(u64::MAX), "ONE\nTWO");
    assert!(transmit.sending().is_none());
}

#[test]
fn a_message_that_could_not_start_is_handed_back_ahead_of_the_queue() {
    let mut transmit = Transmit::default();
    transmit.queue("FIRST".to_owned());
    transmit.queue("SECOND".to_owned());
    let first = transmit.take_next().expect("something was queued");
    assert_eq!(transmit.abandon_queue(first), "FIRST\nSECOND");
    assert_eq!(transmit.abandon_queue(String::new()), "");
}

#[test]
fn the_echo_hands_over_each_character_exactly_once() {
    let text = "RYRY";
    let ends = ends(text);
    let mut sending = sending(text);

    assert_eq!(sending.take_echo(0), None);
    assert_eq!(sending.take_echo(ends[1]).as_deref(), Some("RY"));
    assert_eq!(sending.take_echo(ends[1]), None);
    assert_eq!(sending.take_echo(ends[3]).as_deref(), Some("RY"));
    assert_eq!(sending.take_echo(u64::MAX), None);
}

#[test]
fn the_echo_of_the_message_on_the_air_is_taken_through_the_machine() {
    let text = "CQ";
    let ends = ends(text);
    let mut transmit = Transmit::default();
    assert_eq!(transmit.take_echo(u64::MAX), None);
    transmit.begin(sending(text));
    assert_eq!(transmit.take_echo(ends[0]).as_deref(), Some("C"));
    assert_eq!(transmit.take_echo(ends[1]).as_deref(), Some("Q"));
    assert_eq!(transmit.take_echo(ends[1]), None);
    assert_eq!(transmit.sending().map(Sending::text), Some("CQ"));
}

#[test]
fn progress_counts_the_characters_that_have_left() {
    let text = "CQ CQ";
    let ends = ends(text);
    let sending = sending(text);

    assert_eq!(sending.progress(0), SentProgress { sent: 0, total: 5 });
    assert_eq!(sending.progress(ends[2]), SentProgress { sent: 3, total: 5 });
    assert_eq!(sending.progress(ends[2] - 1), SentProgress { sent: 2, total: 5 });
    assert_eq!(sending.progress(u64::MAX), SentProgress { sent: 5, total: 5 });
    assert_eq!(SentProgress::default(), SentProgress { sent: 0, total: 0 });
}

#[test]
fn the_remaining_length_runs_out_rather_than_going_negative() {
    let sending = sending("RY");
    assert!(sending.remaining_samples(0) > 0);
    assert_eq!(sending.remaining_samples(0), 2 * LEAD + 2 * CHARACTER);
    assert_eq!(sending.remaining_samples(LEAD), LEAD + 2 * CHARACTER);
    assert_eq!(sending.remaining_samples(u64::MAX), 0);
}

#[test]
fn what_is_left_unsent_is_the_text_after_the_played_characters() {
    let text = "RYRY";
    let ends = ends(text);
    let sending = sending(text);
    assert_eq!(sending.unsent(0), "RYRY");
    assert_eq!(sending.unsent(ends[0]), "YRY");
    assert_eq!(sending.unsent(u64::MAX), "");
}

#[test]
fn nothing_queued_and_nothing_sending_is_not_busy() {
    let mut transmit = Transmit::default();
    assert!(!transmit.is_busy());
    transmit.queue("RY".to_owned());
    assert!(transmit.is_busy());
    transmit.take_next();
    assert!(!transmit.is_busy());
}

#[test]
fn a_schedule_counts_the_characters_whose_end_has_passed() {
    let schedule = Schedule::new(vec![10, 20, 30], 40);
    assert_eq!(schedule.character_count(), 3);
    assert_eq!(schedule.total_samples(), 40);
    assert_eq!(schedule.characters_sent_by(9), 0);
    assert_eq!(schedule.characters_sent_by(10), 1);
    assert_eq!(schedule.characters_sent_by(29), 2);
    assert_eq!(schedule.characters_sent_by(u64::MAX), 3);
}

#[test]
fn a_queued_message_is_listed_as_one_line() {
    assert_eq!(grayline_apps::transmit::one_line("CQ\nDE JL1HIS"), "CQ \u{23ce} DE JL1HIS");
    assert_eq!(grayline_apps::transmit::one_line(""), "");
}

#[test]
fn a_long_queued_message_is_cut_with_an_ellipsis() {
    let long = "RY".repeat(31);
    let line = grayline_apps::transmit::one_line(&long);
    assert_eq!(line.chars().count(), 61);
    assert!(line.starts_with(&"RY".repeat(30)));
    assert!(line.ends_with('\u{2026}'));
    let exact = "R".repeat(60);
    assert_eq!(grayline_apps::transmit::one_line(&exact), exact);
}

#[test]
fn a_message_cannot_be_sent_without_an_output_device() {
    let mut transmit = Transmit::with_draft("CQ DE JL1HIS".to_owned());

    assert!(!transmit.can_send(false));
    let notice = transmit.send_draft(false);

    assert_eq!(transmit.queued().len(), 0);
    assert_eq!(notice, Some(NO_OUTPUT));
    assert_eq!(transmit.draft, "CQ DE JL1HIS");
}

#[test]
fn a_message_holding_an_unsendable_character_cannot_be_sent() {
    let mut transmit = Transmit::with_draft("100% COPY".to_owned());

    assert_eq!(first_unsendable(&transmit.draft), Some('%'));
    assert!(!transmit.can_send(true));
    assert_eq!(transmit.send_draft(true), None);
    assert_eq!(transmit.queued().len(), 0);

    transmit.draft = "100 PERCENT COPY".to_owned();
    assert_eq!(first_unsendable(&transmit.draft), None);
    assert!(transmit.can_send(true));
}

#[test]
fn an_empty_draft_is_nothing_to_send() {
    let mut transmit = Transmit::default();
    assert!(!transmit.can_send(true));
    transmit.draft = "   \n".to_owned();
    assert!(!transmit.can_send(true));
}

#[test]
fn a_sendable_draft_is_queued_when_sent() {
    let mut transmit = Transmit::with_draft("CQ DE JL1HIS\n".to_owned());
    assert!(transmit.can_send(true));
    assert_eq!(transmit.send_draft(true), None);
    assert!(transmit.draft.is_empty());
    assert_eq!(queued(&transmit), ["CQ DE JL1HIS"]);
}

#[test]
fn stopping_with_nothing_on_the_air_leaves_the_draft_alone() {
    let mut transmit = Transmit::with_draft("HALF WRITTEN".to_owned());

    transmit.abort(0);

    assert_eq!(transmit.draft, "HALF WRITTEN");
}

#[test]
fn stopping_returns_queued_messages_to_the_draft() {
    let mut transmit = Transmit::default();
    transmit.queue("FIRST".to_owned());
    transmit.queue("SECOND".to_owned());
    transmit.draft = "TYPING".to_owned();

    transmit.abort(0);

    assert_eq!(transmit.draft, "FIRST\nSECOND\nTYPING");
    assert!(!transmit.is_busy());
}

#[test]
fn stopping_mid_message_returns_what_was_never_played() {
    let text = "RYRY";
    let ends = ends(text);
    let mut transmit = Transmit::default();
    transmit.begin(sending(text));
    transmit.abort(ends[1]);
    assert_eq!(transmit.draft, "RY");
    assert!(!transmit.is_busy());
}

#[test]
fn a_message_that_cannot_be_started_is_given_back() {
    let mut transmit = Transmit::default();
    transmit.queue("FIRST".to_owned());
    transmit.queue("SECOND".to_owned());

    let next = transmit.take_next().expect("something was queued");
    transmit.give_back(next);

    assert!(!transmit.is_busy());
    assert_eq!(transmit.draft, "FIRST\nSECOND");
}

#[test]
fn the_message_on_the_air_is_split_where_it_has_got_to() {
    let (sent, waiting) = grayline_apps::transmit::sent_parts("CQ\nDE", 2);
    assert_eq!(sent, "CQ");
    assert_eq!(waiting, "\u{23ce}DE");
    let (sent, waiting) = grayline_apps::transmit::sent_parts("RY", 9);
    assert_eq!(sent, "RY");
    assert_eq!(waiting, "");
    let (sent, waiting) = grayline_apps::transmit::sent_parts("RY", 0);
    assert_eq!(sent, "");
    assert_eq!(waiting, "RY");
}

#[test]
fn a_sending_macro_does_not_disturb_the_draft() {
    let mut transmit = Transmit::with_draft("HALF WRITTEN".to_owned());

    let notice = transmit.send_text("RYRY\n".to_owned(), false);
    assert_eq!(transmit.draft, "HALF WRITTEN");
    assert_eq!(transmit.queued().len(), 0);
    assert_eq!(notice, Some(NO_OUTPUT));

    assert_eq!(transmit.send_text("RYRY\n".to_owned(), true), None);
    assert_eq!(transmit.draft, "HALF WRITTEN");
    assert_eq!(queued(&transmit), ["RYRY\n"]);
}
