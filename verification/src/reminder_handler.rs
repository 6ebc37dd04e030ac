//! The reminder dispatcher's decisions. Each tick drains the due, unsent
//! reminders: every one is marked sent at once — at-most-once delivery —
//! and those whose originator has an SMS destination on record become
//! payloads for the provider. The surrounding program runs the tick timer
//! and performs the sends.

use vstd::prelude::*;

use crate::address_book::{spec_lookup, AddressBook};
use crate::calendar::DateTime;
use crate::reminders::{spec_due_unsent, spec_mark_sent, Reminder, ReminderRow, Reminders};

verus! {

/// One SMS to hand to the provider.
#[derive(Debug)]
pub struct SmsPayload {
    /// The configured sender number.
    pub from: String,
    /// The destination drawn from the address book.
    pub to: String,
    /// The reminder's text.
    pub body: String,
}

/// The payload's content, as character sequences: sender, destination, text.
pub open spec fn payload_view(p: SmsPayload) -> (Seq<char>, Seq<char>, Seq<char>) {
    (p.from@, p.to@, p.body@)
}

/// The SMS for one due reminder, given the address book's answer for its
/// destination: none where no entry is on record — such a reminder is
/// dropped without retry.
pub fn sms_for_reminder(reminder: &Reminder, msisdn: Option<String>, from_num: &str) -> (r: Option<
    SmsPayload,
>)
    ensures
        match msisdn {
            None => r is None,
            Some(m) => r is Some && payload_view(r.unwrap()) == (from_num@, m@, reminder.text@),
        },
{
    match msisdn {
        None => None,
        Some(m) => Some(
            SmsPayload { from: String::from_str(from_num), to: m, body: reminder.text.clone() },
        ),
    }
}

/// The rows after every reminder of `due` is marked sent, in order.
pub open spec fn spec_mark_all(rows: Seq<ReminderRow>, due: Seq<Reminder>) -> Seq<ReminderRow>
    decreases due.len(),
{
    if due.len() == 0 {
        rows
    } else {
        spec_mark_sent(spec_mark_all(rows, due.drop_last()), due.last().id@)
    }
}

/// The payloads of one tick: each reminder of `due` whose destination has an
/// entry, as `(from, to, text)`, in order.
pub open spec fn spec_payloads(
    due: Seq<Reminder>,
    entries: Seq<(String, String)>,
    from: Seq<char>,
) -> Seq<(Seq<char>, Seq<char>, Seq<char>)>
    decreases due.len(),
{
    if due.len() == 0 {
        Seq::empty()
    } else {
        let rest = spec_payloads(due.drop_last(), entries, from);
        match spec_lookup(entries, due.last().destination@) {
            Some(m) => rest.push((from, m, due.last().text@)),
            None => rest,
        }
    }
}

/// The dispatcher: the store, the read-only address book, and the sender
/// number SMS go out under.
#[derive(Debug)]
pub struct ReminderHandler {
    pub reminders: Reminders,
    pub address_book: AddressBook,
    pub from_num: String,
}

impl ReminderHandler {
    pub open spec fn wf(self) -> bool {
        self.reminders.wf() && self.address_book.wf()
    }

    pub fn new(reminders: Reminders, address_book: AddressBook, from_num: String) -> (r:
        ReminderHandler)
        requires
            reminders.wf(),
            address_book.wf(),
        ensures
            r.wf(),
            r.reminders == reminders,
            r.address_book == address_book,
            r.from_num == from_num,
    {
        ReminderHandler { reminders, address_book, from_num }
    }

    /// One tick: every reminder due by `now` and not yet sent is marked sent,
    /// and those with a destination on record come back as payloads, in
    /// store order. A reminder without an address-book entry is dropped.
    pub fn do_reminders(&mut self, now: &DateTime) -> (r: Vec<SmsPayload>)
        requires
            old(self).wf(),
            now.wf(),
        ensures
            final(self).wf(),
            final(self).address_book == old(self).address_book,
            final(self).from_num == old(self).from_num,
            final(self).reminders.rows() == spec_mark_all(
                old(self).reminders.rows(),
                spec_due_unsent(old(self).reminders.rows(), now.total_seconds()),
            ),
            r@.map_values(|p: SmsPayload| payload_view(p)) == spec_payloads(
                spec_due_unsent(old(self).reminders.rows(), now.total_seconds()),
                old(self).address_book.entries(),
                old(self).from_num@,
            ),
    {
        let due: Vec<Reminder> = self.reminders.get_reminders_before(now);
        let ghost due0 = due@;
        let n: usize = due.len();
        let mut r: Vec<SmsPayload> = Vec::new();
        let mut i: usize = 0;
        while i < n
            invariant
                0 <= i <= n,
                n == due0.len(),
                due@ == due0,
                self.wf(),
                self.address_book == old(self).address_book,
                self.from_num == old(self).from_num,
                self.reminders.rows() == spec_mark_all(
                    old(self).reminders.rows(),
                    due0.take(i as int),
                ),
                r@.map_values(|p: SmsPayload| payload_view(p)) == spec_payloads(
                    due0.take(i as int),
                    self.address_book.entries(),
                    self.from_num@,
                ),
            decreases n - i,
        {
            proof {
                assert(due0.take(i + 1).drop_last() =~= due0.take(i as int));
                assert(due0.take(i + 1).last() == due0[i as int]);
            }
            let reminder = &due[i];
            let msisdn: Option<String> = self.address_book.get_msisdn_for_user(
                reminder.destination.as_str(),
            );
            let ghost before = r@;
            match sms_for_reminder(reminder, msisdn, self.from_num.as_str()) {
                Some(p) => {
                    r.push(p);
                    proof {
                        assert(r@.map_values(|p: SmsPayload| payload_view(p)) =~= before.map_values(
                            |p: SmsPayload| payload_view(p),
                        ).push(payload_view(r@.last())));
                    }
                },
                None => {},
            }
            let id = reminder.id.clone();
            self.reminders.delete_reminder(id.as_str());
            proof {
                assert(r@.map_values(|p: SmsPayload| payload_view(p)) =~= spec_payloads(
                    due0.take(i + 1),
                    self.address_book.entries(),
                    self.from_num@,
                ));
            }
            i = i + 1;
        }
        proof {
            assert(due0.take(n as int) =~= due0);
        }
        r
    }
}

} // verus!
