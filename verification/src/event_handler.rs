//! The command handler: filters room events, matches the command grammar
//! `testbot: remind me <when> to <what>`, parses the `when` phrase, and
//! decides what to do — ignore, complain, or queue a reminder and reply.
//!
//! The surrounding program feeds it one event at a time from live snapshots
//! and carries out the decision: inserting the reminder and posting the
//! reply are its work.

use vstd::prelude::*;

use rand::Rng;

use crate::calendar::{spec_rfc2822, DateTime};
use crate::date::{parse_human_datetime, spec_parse};
use crate::matrix::Event;
use crate::reminders::Reminder;
use crate::text::{chars_vec, matches_at, skip_spaces};
use crate::text::{matches_at_x, skip_spaces_x};

verus! {

/// Whether `s[a..b]` is free of line breaks, which the command grammar's
/// capture groups may not span.
pub open spec fn no_newline(s: Seq<char>, a: int, b: int) -> bool {
    forall|i: int| a <= i < b ==> s[i] != '\n'
}

/// Whether the when-group may end at `e`: all of it on one line, then at
/// least one whitespace character, the word "to", at least one more, and a
/// what-group free of line breaks out to the end.
pub open spec fn split_ok(s: Seq<char>, k: int, e: int) -> bool {
    &&& k <= e <= s.len()
    &&& no_newline(s, k, e)
    &&& ({
        let a = skip_spaces(s, e);
        &&& a > e
        &&& matches_at(s, a, "to"@)
        &&& ({
            let w = skip_spaces(s, a + "to"@.len());
            &&& w > a + "to"@.len()
            &&& no_newline(s, w, s.len() as int)
        })
    })
}

/// The largest end for the when-group at or below `e`, as a greedy matcher
/// takes it.
pub open spec fn find_split(s: Seq<char>, k: int, e: int) -> Option<int>
    decreases e + 1 - k,
{
    if e < k {
        None
    } else if split_ok(s, k, e) {
        Some(e)
    } else {
        find_split(s, k, e - 1)
    }
}

/// The command grammar over a message body: the bot's address, the words
/// "remind" and "me", a when-group, the word "to" amid whitespace, and a
/// what-group reaching the end. Yields the two groups' bounds:
/// `(when start, when end, what start)`.
pub open spec fn spec_command(s: Seq<char>) -> Option<(int, int, int)> {
    if matches_at(s, 0, "testbot:"@) {
        let i = skip_spaces(s, "testbot:"@.len() as int);
        if i > "testbot:"@.len() && matches_at(s, i, "remind"@) {
            let j = skip_spaces(s, i + "remind"@.len());
            if matches_at(s, j, "me"@) {
                let k = skip_spaces(s, j + "me"@.len());
                if k > j + "me"@.len() {
                    match find_split(s, k, s.len() as int) {
                        Some(e) => Some((k, e, skip_spaces(s, skip_spaces(s, e) + "to"@.len()))),
                        None => None,
                    }
                } else {
                    None
                }
            } else {
                None
            }
        } else {
            None
        }
    } else {
        None
    }
}

/// What the handler decided, with the groups as character sequences.
pub enum SpecOutcome {
    /// Not a message, no textual body, or not addressed to the bot.
    Ignored,
    /// Addressed to the bot, but not the command grammar.
    Unrecognized,
    /// Post this reply; no reminder is queued.
    Reply(Seq<char>),
    /// Queue this reminder, and post the reply on success.
    Queue { id: Seq<char>, due: DateTime, destination: Seq<char>, text: Seq<char>, reply: Seq<
        char,
    > },
}

/// What the handler decides for one event, given the current instant and a
/// freshly generated reminder key.
pub open spec fn spec_handle_event(event: Event, now: DateTime, id: Seq<char>) -> SpecOutcome {
    if event.etype@ != "m.room.message"@ {
        SpecOutcome::Ignored
    } else {
        match event.body {
            None => SpecOutcome::Ignored,
            Some(body) => {
                if !matches_at(body@, 0, "testbot:"@) {
                    SpecOutcome::Ignored
                } else {
                    match spec_command(body@) {
                        None => SpecOutcome::Unrecognized,
                        Some((k, e, w)) => {
                            let when = body@.subrange(k, e);
                            let what = body@.subrange(w, body@.len() as int);
                            match spec_parse(when, now) {
                                Err(_) => SpecOutcome::Reply(
                                    "Error: Failed to parse date "@ + when,
                                ),
                                Ok(due) => {
                                    if due.total_seconds() <= now.total_seconds() {
                                        SpecOutcome::Reply(
                                            "Error: Due date in past: "@ + spec_rfc2822(due),
                                        )
                                    } else {
                                        SpecOutcome::Queue {
                                            id: id,
                                            due: due,
                                            destination: event.sender@,
                                            text: what,
                                            reply: "Queuing message to be sent at '"@
                                                + spec_rfc2822(due) + "'"@,
                                        }
                                    }
                                },
                            }
                        },
                    }
                }
            },
        }
    }
}

/// The handler's decision, carried as values the surrounding program acts
/// on.
pub enum EventOutcome {
    Ignored,
    Unrecognized,
    Reply { message: String },
    Queue { reminder: Reminder, reply: String },
}

/// The decision a carried outcome denotes.
pub open spec fn outcome_view(r: EventOutcome) -> SpecOutcome {
    match r {
        EventOutcome::Ignored => SpecOutcome::Ignored,
        EventOutcome::Unrecognized => SpecOutcome::Unrecognized,
        EventOutcome::Reply { message } => SpecOutcome::Reply(message@),
        EventOutcome::Queue { reminder, reply } => SpecOutcome::Queue {
            id: reminder.id@,
            due: reminder.due,
            destination: reminder.destination@,
            text: reminder.text@,
            reply: reply@,
        },
    }
}

/// Finds the when-group's greedy end, scanning down from the body's end.
fn find_split_x(s: &Vec<char>, k: usize) -> (r: Option<usize>)
    requires
        k <= s@.len(),
    ensures
        match find_split(s@, k as int, s@.len() as int) {
            Some(e) => r is Some && r.unwrap() == e,
            None => r is None,
        },
{
    let n: usize = s.len();
    let mut e: usize = n;
    loop
        invariant
            k <= e <= n,
            n == s@.len(),
            find_split(s@, k as int, n as int) == find_split(s@, k as int, e as int),
        decreases e,
    {
        if split_ok_x(s, k, e) {
            return Some(e);
        }
        if e == k {
            return None;
        }
        e = e - 1;
    }
}

/// Whether the when-group may end at `e`.
fn split_ok_x(s: &Vec<char>, k: usize, e: usize) -> (r: bool)
    requires
        k <= e <= s@.len(),
    ensures
        r == split_ok(s@, k as int, e as int),
{
    let n: usize = s.len();
    let mut i: usize = k;
    while i < e
        invariant
            k <= i <= e <= s@.len(),
            forall|j: int| k <= j < i ==> s@[j] != '\n',
        decreases e - i,
    {
        if s[i] == '\n' {
            return false;
        }
        i = i + 1;
    }
    let a: usize = skip_spaces_x(s, e);
    if a <= e {
        return false;
    }
    if !matches_at_x(s, a, "to") {
        return false;
    }
    let w: usize = skip_spaces_x(s, a + "to".unicode_len());
    if w <= a + "to".unicode_len() {
        return false;
    }
    let mut t: usize = w;
    while t < n
        invariant
            w <= t <= n,
            n == s@.len(),
            k <= e <= n,
            a == skip_spaces(s@, e as int),
            a > e,
            matches_at(s@, a as int, "to"@),
            w == skip_spaces(s@, a + "to"@.len()),
            w > a + "to"@.len(),
            forall|j: int| w <= j < t ==> s@[j] != '\n',
        decreases n - t,
    {
        if s[t] == '\n' {
            return false;
        }
        t = t + 1;
    }
    true
}

/// Matches the command grammar over a body, yielding the groups' bounds.
fn command_x(s: &Vec<char>) -> (r: Option<(usize, usize, usize)>)
    ensures
        match spec_command(s@) {
            Some((k, e, w)) => r is Some && r.unwrap().0 == k && r.unwrap().1 == e && r.unwrap().2
                == w && 0 <= k <= e <= w <= s@.len(),
            None => r is None,
        },
{
    let n: usize = s.len();
    if !matches_at_x(s, 0, "testbot:") {
        return None;
    }
    let p0: usize = "testbot:".unicode_len();
    let i: usize = skip_spaces_x(s, p0);
    if i <= p0 || !matches_at_x(s, i, "remind") {
        return None;
    }
    let j: usize = skip_spaces_x(s, i + "remind".unicode_len());
    if !matches_at_x(s, j, "me") {
        return None;
    }
    let me_end: usize = j + "me".unicode_len();
    let k: usize = skip_spaces_x(s, me_end);
    if k <= me_end {
        return None;
    }
    match find_split_x(s, k) {
        Some(e) => {
            proof {
                lemma_split_bounds(s@, k as int, s@.len() as int);
            }
            let a: usize = skip_spaces_x(s, e);
            let w: usize = skip_spaces_x(s, a + "to".unicode_len());
            Some((k, e, w))
        },
        None => None,
    }
}

/// A found split lies within the body, and its what-group start does too.
proof fn lemma_split_bounds(s: Seq<char>, k: int, e0: int)
    requires
        find_split(s, k, e0) is Some,
    ensures
        ({
            let e = find_split(s, k, e0).unwrap();
            &&& k <= e <= s.len()
            &&& split_ok(s, k, e)
        }),
    decreases e0 + 1 - k,
{
    if e0 >= k && !split_ok(s, k, e0) {
        lemma_split_bounds(s, k, e0 - 1);
    }
}

/// The characters a generated reminder key draws from.
pub open spec fn is_id_char(c: char) -> bool {
    ('a' <= c && c <= 'z') || ('A' <= c && c <= 'Z') || ('0' <= c && c <= '9')
}

/// Relies on rand's `thread_rng` and `Alphanumeric`: twenty samples, each an
/// ASCII letter or digit.
#[verifier::external_body]
fn generate_id() -> (r: String)
    ensures
        r@.len() == 20,
        forall|i: int| 0 <= i < r@.len() ==> is_id_char(#[trigger] r@[i]),
{
    rand::thread_rng().sample_iter(&rand::distributions::Alphanumeric).take(20).map(
        char::from,
    ).collect()
}

/// Decides what one event means, under a caller-supplied reminder key. The
/// room identifier plays no part in the decision: the surrounding program
/// addresses the reply to the room the event came from.
pub fn handle_event_with_id(room_id: &str, event: &Event, now: &DateTime, id: String) -> (r:
    EventOutcome)
    requires
        now.wf(),
    ensures
        outcome_view(r) == spec_handle_event(*event, *now, id@),
{
    let _ = room_id;
    if !crate::text::str_eq(event.etype.as_str(), "m.room.message") {
        return EventOutcome::Ignored;
    }
    let body: &String = match &event.body {
        Some(b) => b,
        None => {
            return EventOutcome::Ignored;
        },
    };
    let chars: Vec<char> = chars_vec(body.as_str());
    if !matches_at_x(&chars, 0, "testbot:") {
        return EventOutcome::Ignored;
    }
    let (k, e, w) = match command_x(&chars) {
        Some(bounds) => bounds,
        None => {
            return EventOutcome::Unrecognized;
        },
    };
    let when: &str = body.as_str().substring_char(k, e);
    let what: &str = body.as_str().substring_char(w, body.as_str().unicode_len());
    let due: DateTime = match parse_human_datetime(when, now) {
        Ok(d) => d,
        Err(_) => {
            let mut message = String::from_str("Error: Failed to parse date ");
            message.append(when);
            return EventOutcome::Reply { message };
        },
    };
    if !now.lt(&due) {
        let mut message = String::from_str("Error: Due date in past: ");
        let stamp = due.to_rfc2822();
        message.append(stamp.as_str());
        return EventOutcome::Reply { message };
    }
    let mut reply = String::from_str("Queuing message to be sent at '");
    let stamp = due.to_rfc2822();
    reply.append(stamp.as_str());
    reply.append("'");
    let reminder = Reminder {
        id,
        due,
        destination: event.sender.clone(),
        text: String::from_str(what),
    };
    EventOutcome::Queue { reminder, reply }
}

/// Decides what one event means, generating the reminder key. The key is
/// twenty letters and digits; everything else about the decision is the
/// function of the event, the instant and that key.
pub fn handle_event(room_id: &str, event: &Event, now: &DateTime) -> (r: EventOutcome)
    requires
        now.wf(),
    ensures
        exists|id: Seq<char>|
            id.len() == 20 && (forall|i: int| 0 <= i < id.len() ==> is_id_char(#[trigger] id[i]))
                && outcome_view(r) == spec_handle_event(*event, *now, id),
{
    let id = generate_id();
    let ghost idv = id@;
    let r = handle_event_with_id(room_id, event, now, id);
    proof {
        assert(idv.len() == 20 && (forall|i: int|
            0 <= i < idv.len() ==> is_id_char(#[trigger] idv[i])) && outcome_view(r)
            == spec_handle_event(*event, *now, idv));
    }
    r
}

} // verus!
