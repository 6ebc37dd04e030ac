use reminder_bot::address_book::AddressBook;
use reminder_bot::calendar::DateTime;
use reminder_bot::event_handler::{handle_event, handle_event_with_id, EventOutcome};
use reminder_bot::matrix::Event;
use reminder_bot::reminder_handler::ReminderHandler;
use reminder_bot::reminders::{Reminder, Reminders};

fn dt(year: u32, month: u32, day: u32, hour: u32, minute: u32, second: u32) -> DateTime {
    DateTime { year, month, day, hour, minute, second }
}

fn message(sender: &str, body: &str) -> Event {
    Event {
        etype: String::from("m.room.message"),
        state_key: None,
        sender: String::from(sender),
        origin_server_ts: 0,
        body: Some(String::from(body)),
    }
}

fn now() -> DateTime {
    dt(2014, 7, 8, 9, 10, 11)
}

#[test]
fn queues_a_reminder() {
    let ev = message("@alice:example.org", "testbot: remind me in 1 hour to water plants");
    let out = handle_event_with_id("!room:x", &ev, &now(), String::from("aaaaaaaaaaaaaaaaaaaa"));
    match out {
        EventOutcome::Queue { reminder, reply } => {
            assert_eq!(reminder.id, "aaaaaaaaaaaaaaaaaaaa");
            assert_eq!(reminder.due, dt(2014, 7, 8, 10, 10, 11));
            assert_eq!(reminder.destination, "@alice:example.org");
            assert_eq!(reminder.text, "water plants");
            assert_eq!(reply, "Queuing message to be sent at 'Tue, 08 Jul 2014 10:10:11 +0000'");
        }
        _ => panic!("expected a queued reminder"),
    }
}

#[test]
fn ignores_non_messages_and_other_prefixes() {
    let mut ev = message("@alice:example.org", "testbot: remind me in 1 hour to x");
    ev.etype = String::from("m.room.member");
    assert!(matches!(
        handle_event_with_id("!r", &ev, &now(), String::from("a")),
        EventOutcome::Ignored
    ));

    let ev = Event {
        etype: String::from("m.room.message"),
        state_key: None,
        sender: String::from("@a:x"),
        origin_server_ts: 0,
        body: None,
    };
    assert!(matches!(
        handle_event_with_id("!r", &ev, &now(), String::from("a")),
        EventOutcome::Ignored
    ));

    let ev = message("@a:x", "hello there");
    assert!(matches!(
        handle_event_with_id("!r", &ev, &now(), String::from("a")),
        EventOutcome::Ignored
    ));
}

#[test]
fn unrecognized_command() {
    let ev = message("@a:x", "testbot: do something else");
    assert!(matches!(
        handle_event_with_id("!r", &ev, &now(), String::from("a")),
        EventOutcome::Unrecognized
    ));
    // "remind me to X" has no when-group: the grammar needs one.
    let ev = message("@a:x", "testbot: remind me to water plants");
    assert!(matches!(
        handle_event_with_id("!r", &ev, &now(), String::from("a")),
        EventOutcome::Unrecognized
    ));
}

#[test]
fn replies_on_parse_failure() {
    let ev = message("@a:x", "testbot: remind me whenever to water plants");
    match handle_event_with_id("!r", &ev, &now(), String::from("a")) {
        EventOutcome::Reply { message } => {
            assert_eq!(message, "Error: Failed to parse date whenever");
        }
        _ => panic!("expected a reply"),
    }
}

#[test]
fn replies_on_past_due_date() {
    let ev = message("@a:x", "testbot: remind me on 2013-01-01 to look back");
    match handle_event_with_id("!r", &ev, &now(), String::from("a")) {
        EventOutcome::Reply { message } => {
            // The parse lands on 2013-01-01 09:30, the push-a-day rule moves
            // it one day ahead, and it is still long past.
            assert_eq!(message, "Error: Due date in past: Wed, 02 Jan 2013 09:30:00 +0000");
        }
        _ => panic!("expected a reply"),
    }
}

#[test]
fn due_equal_to_now_is_past() {
    // "in 0 seconds" parses to `now` itself; a due instant must lie strictly
    // after `now`, so this is rejected as already past.
    let ev = message("@a:x", "testbot: remind me in 0 seconds to hurry");
    match handle_event_with_id("!r", &ev, &now(), String::from("a")) {
        EventOutcome::Reply { message } => {
            assert_eq!(message, "Error: Due date in past: Tue, 08 Jul 2014 09:10:11 +0000");
        }
        _ => panic!("expected a reply"),
    }
}

#[test]
fn greedy_split_takes_last_to() {
    let ev = message("@a:x", "testbot: remind me in 1 hour to go to the gym");
    match handle_event_with_id("!r", &ev, &now(), String::from("a")) {
        EventOutcome::Queue { reminder, .. } => {
            // The when-group is greedy: the last " to " splits the phrase.
            assert_eq!(reminder.text, "the gym");
        }
        _ => panic!("expected a queued reminder"),
    }
}

#[test]
fn generated_ids_are_alphanumeric() {
    let ev = message("@a:x", "testbot: remind me in 1 hour to x");
    match handle_event("!r", &ev, &now()) {
        EventOutcome::Queue { reminder, .. } => {
            assert_eq!(reminder.id.len(), 20);
            assert!(reminder.id.chars().all(|c| c.is_ascii_alphanumeric()));
        }
        _ => panic!("expected a queued reminder"),
    }
}

#[test]
fn dispatcher_tick_drains_and_builds_payloads() {
    let mut store = Reminders::new();
    store
        .add_reminder(&Reminder {
            id: String::from("aaaa"),
            due: dt(2014, 7, 8, 9, 0, 0),
            destination: String::from("@alice:example.org"),
            text: String::from("water plants"),
        })
        .unwrap();
    store
        .add_reminder(&Reminder {
            id: String::from("bbbb"),
            due: dt(2014, 7, 8, 9, 5, 0),
            destination: String::from("@nobody:example.org"),
            text: String::from("dropped"),
        })
        .unwrap();
    store
        .add_reminder(&Reminder {
            id: String::from("cccc"),
            due: dt(2014, 7, 9, 9, 0, 0),
            destination: String::from("@alice:example.org"),
            text: String::from("tomorrow"),
        })
        .unwrap();

    let mut book = AddressBook::new();
    assert!(book.insert(String::from("@alice:example.org"), String::from("+15551234567")));
    assert!(!book.insert(String::from("@alice:example.org"), String::from("+15550000000")));

    let mut handler = ReminderHandler::new(store, book, String::from("+15557654321"));
    let payloads = handler.do_reminders(&now());

    // The due reminder with an address-book entry becomes a payload; the one
    // without is dropped; the future one stays.
    assert_eq!(payloads.len(), 1);
    assert_eq!(payloads[0].from, "+15557654321");
    assert_eq!(payloads[0].to, "+15551234567");
    assert_eq!(payloads[0].body, "water plants");

    // Both due reminders were marked sent, so a second tick sends nothing.
    let again = handler.do_reminders(&now());
    assert_eq!(again.len(), 0);

    // The future reminder is still there.
    let later = handler.do_reminders(&dt(2014, 7, 10, 0, 0, 0));
    assert_eq!(later.len(), 1);
    assert_eq!(later[0].body, "tomorrow");
}

#[test]
fn end_to_end_one_row_and_one_reply() {
    // A valid command inserts exactly one row with the parsed due time, the
    // sender as destination, the what-group as text, not yet sent, and asks
    // for exactly one reply to the originating room.
    let now = dt(2014, 7, 8, 9, 10, 11);
    let ev = message("@alice:example.org", "testbot: remind me in 1 hour to water plants");
    let mut store = Reminders::new();
    let out = handle_event("!room:x", &ev, &now);
    match out {
        EventOutcome::Queue { reminder, reply } => {
            assert_eq!(reminder.due, dt(2014, 7, 8, 10, 10, 11));
            assert_eq!(reminder.destination, "@alice:example.org");
            assert_eq!(reminder.text, "water plants");
            store.add_reminder(&reminder).unwrap();
            assert_eq!(reply, "Queuing message to be sent at 'Tue, 08 Jul 2014 10:10:11 +0000'");
        }
        _ => panic!("expected a queued reminder"),
    }
    // Not yet due, so not yet sent; due exactly at its instant.
    assert_eq!(store.get_reminders_before(&now).len(), 0);
    let at_due = store.get_reminders_before(&dt(2014, 7, 8, 10, 10, 11));
    assert_eq!(at_due.len(), 1);
    assert_eq!(at_due[0].text, "water plants");
}

#[test]
fn address_book_lookup() {
    let mut book = AddressBook::new();
    assert!(book.insert(String::from("@a:x"), String::from("+1111")));
    assert_eq!(book.get_msisdn_for_user("@a:x").as_deref(), Some("+1111"));
    assert_eq!(book.get_msisdn_for_user("@b:x"), None);
}
