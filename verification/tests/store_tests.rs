use reminder_bot::calendar::DateTime;
use reminder_bot::reminders::{Reminder, Reminders, StoreError};

fn dt(year: u32, month: u32, day: u32, hour: u32, minute: u32, second: u32) -> DateTime {
    DateTime { year, month, day, hour, minute, second }
}

fn reminder(id: &str, due: DateTime, destination: &str, text: &str) -> Reminder {
    Reminder {
        id: String::from(id),
        due,
        destination: String::from(destination),
        text: String::from(text),
    }
}

#[test]
fn add_and_query() {
    let mut store = Reminders::new();
    let due = dt(2014, 7, 8, 10, 0, 0);
    let later = dt(2014, 7, 9, 10, 0, 0);
    store
        .add_reminder(&reminder("aaaa", due, "@alice:example.org", "water plants"))
        .unwrap();
    store
        .add_reminder(&reminder("bbbb", later, "@bob:example.org", "call mom"))
        .unwrap();

    let now = dt(2014, 7, 8, 12, 0, 0);
    let due_now = store.get_reminders_before(&now);
    assert_eq!(due_now.len(), 1);
    assert_eq!(due_now[0].id, "aaaa");
    assert_eq!(due_now[0].text, "water plants");
    assert_eq!(due_now[0].destination, "@alice:example.org");
}

#[test]
fn duplicate_id_fails() {
    let mut store = Reminders::new();
    let due = dt(2014, 7, 8, 10, 0, 0);
    store.add_reminder(&reminder("aaaa", due, "@a:x", "one")).unwrap();
    let err = store
        .add_reminder(&reminder("aaaa", due, "@b:x", "two"))
        .unwrap_err();
    assert_eq!(err, StoreError::DuplicateId);
    // The failed insert changed nothing: the stored row still reads "one".
    let rows = store.get_reminders_before(&dt(2014, 7, 8, 12, 0, 0));
    assert_eq!(rows.len(), 1);
    assert_eq!(rows[0].text, "one");
}

#[test]
fn due_before_excludes_sent_and_later() {
    let mut store = Reminders::new();
    store
        .add_reminder(&reminder("aaaa", dt(2014, 7, 8, 10, 0, 0), "@a:x", "due"))
        .unwrap();
    store
        .add_reminder(&reminder("bbbb", dt(2014, 7, 8, 11, 0, 0), "@b:x", "sent"))
        .unwrap();
    store
        .add_reminder(&reminder("cccc", dt(2014, 7, 9, 10, 0, 0), "@c:x", "later"))
        .unwrap();
    store.delete_reminder("bbbb");
    let now = dt(2014, 7, 8, 12, 0, 0);
    let due = store.get_reminders_before(&now);
    assert_eq!(due.len(), 1);
    assert_eq!(due[0].id, "aaaa");
}

#[test]
fn mark_sent_is_idempotent() {
    let mut store = Reminders::new();
    store
        .add_reminder(&reminder("aaaa", dt(2014, 7, 8, 10, 0, 0), "@a:x", "x"))
        .unwrap();
    store
        .add_reminder(&reminder("bbbb", dt(2014, 7, 8, 11, 0, 0), "@b:x", "y"))
        .unwrap();
    store.delete_reminder("aaaa");
    let once = store.get_reminders_before(&dt(2014, 7, 8, 12, 0, 0));
    store.delete_reminder("aaaa");
    let twice = store.get_reminders_before(&dt(2014, 7, 8, 12, 0, 0));
    assert_eq!(once.len(), 1);
    assert_eq!(twice.len(), 1);
    assert_eq!(once[0].id, twice[0].id);
}

#[test]
fn mark_sent_missing_id_is_noop() {
    let mut store = Reminders::new();
    store
        .add_reminder(&reminder("aaaa", dt(2014, 7, 8, 10, 0, 0), "@a:x", "x"))
        .unwrap();
    store.delete_reminder("zzzz");
    let due = store.get_reminders_before(&dt(2014, 7, 8, 12, 0, 0));
    assert_eq!(due.len(), 1);
}

#[test]
fn boundary_due_equal_now_is_returned() {
    let mut store = Reminders::new();
    let now = dt(2014, 7, 8, 10, 0, 0);
    store.add_reminder(&reminder("aaaa", now, "@a:x", "x")).unwrap();
    let due = store.get_reminders_before(&now);
    assert_eq!(due.len(), 1);
}
