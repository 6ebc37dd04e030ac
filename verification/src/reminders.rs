//! The reminder store's semantics: a table of rows keyed by `id`, each a
//! reminder and a `sent` flag. Inserting an existing key fails, a range
//! query returns the unsent rows due by a given instant, and marking a row
//! sent is idempotent. The surrounding program mirrors every change into a
//! durable table with the same meaning; this model is what it must preserve.

use vstd::prelude::*;

use crate::calendar::DateTime;

verus! {

/// One pending SMS notification.
#[derive(Debug)]
pub struct Reminder {
    /// Opaque unique key.
    pub id: String,
    /// When to deliver, UTC.
    pub due: DateTime,
    /// Chat user identifier of the originator.
    pub destination: String,
    /// Free-form message body.
    pub text: String,
}

impl Clone for Reminder {
    fn clone(&self) -> (r: Self)
        ensures
            r == *self,
    {
        Reminder {
            id: self.id.clone(),
            due: self.due,
            destination: self.destination.clone(),
            text: self.text.clone(),
        }
    }
}

/// A stored row: a reminder and whether it was already dispatched.
#[derive(Debug)]
pub struct ReminderRow {
    pub reminder: Reminder,
    pub sent: bool,
}

impl Clone for ReminderRow {
    fn clone(&self) -> (r: Self)
        ensures
            r == *self,
    {
        ReminderRow { reminder: self.reminder.clone(), sent: self.sent }
    }
}

#[derive(Clone, Copy, PartialEq, Eq, Structural, Debug)]
pub enum StoreError {
    /// An insert hit an existing key.
    DuplicateId,
}

/// Whether some row of `rows` holds the key `id`.
pub open spec fn spec_contains_id(rows: Seq<ReminderRow>, id: Seq<char>) -> bool {
    exists|i: int| 0 <= i < rows.len() && rows[i].reminder.id@ == id
}

/// The rows with the key `id` marked sent.
pub open spec fn spec_mark_sent(rows: Seq<ReminderRow>, id: Seq<char>) -> Seq<ReminderRow> {
    rows.map_values(
        |row: ReminderRow|
            if row.reminder.id@ == id {
                ReminderRow { sent: true, ..row }
            } else {
                row
            },
    )
}

/// The reminders of the rows not yet sent and due by `t`, in table order.
pub open spec fn spec_due_unsent(rows: Seq<ReminderRow>, t: int) -> Seq<Reminder>
    decreases rows.len(),
{
    if rows.len() == 0 {
        Seq::empty()
    } else {
        let rest = spec_due_unsent(rows.drop_last(), t);
        let last = rows.last();
        if !last.sent && last.reminder.due.total_seconds() <= t {
            rest.push(last.reminder)
        } else {
            rest
        }
    }
}

/// The durable table of pending reminders.
#[derive(Debug)]
pub struct Reminders {
    rows: Vec<ReminderRow>,
}

impl Reminders {
    /// The rows, oldest insert first.
    pub closed spec fn rows(self) -> Seq<ReminderRow> {
        self.rows@
    }

    /// Keys are unique and every instant is a real one.
    pub open spec fn wf(self) -> bool {
        &&& forall|i: int, j: int|
            0 <= i < j < self.rows().len() ==> self.rows()[i].reminder.id@
                != self.rows()[j].reminder.id@
        &&& forall|i: int| 0 <= i < self.rows().len() ==> (#[trigger] self.rows()[i]).reminder.due.wf()
    }

    /// An empty store.
    pub fn new() -> (r: Reminders)
        ensures
            r.wf(),
            r.rows() == Seq::<ReminderRow>::empty(),
    {
        Reminders { rows: Vec::new() }
    }

    /// Whether a row with this key exists.
    pub fn contains_id(&self, id: &str) -> (r: bool)
        ensures
            r == spec_contains_id(self.rows(), id@),
    {
        let n: usize = self.rows.len();
        let mut i: usize = 0;
        while i < n
            invariant
                0 <= i <= n,
                n == self.rows().len(),
                forall|j: int| 0 <= j < i ==> (#[trigger] self.rows()[j]).reminder.id@ != id@,
            decreases n - i,
        {
            if crate::text::str_eq(self.rows[i].reminder.id.as_str(), id) {
                return true;
            }
            i = i + 1;
        }
        false
    }

    /// Inserts a reminder as an unsent row. Fails if and only if a row with
    /// the same key already exists, and then changes nothing.
    pub fn add_reminder(&mut self, reminder: &Reminder) -> (r: Result<(), StoreError>)
        requires
            old(self).wf(),
            reminder.due.wf(),
        ensures
            final(self).wf(),
            match r {
                Ok(()) => !spec_contains_id(old(self).rows(), reminder.id@) && final(self).rows()
                    == old(self).rows().push(ReminderRow { reminder: *reminder, sent: false }),
                Err(StoreError::DuplicateId) => spec_contains_id(old(self).rows(), reminder.id@)
                    && final(self).rows() == old(self).rows(),
            },
    {
        if self.contains_id(self.id_of(reminder)) {
            return Err(StoreError::DuplicateId);
        }
        self.rows.push(ReminderRow { reminder: reminder.clone(), sent: false });
        Ok(())
    }

    /// The key of a reminder, read through the store to keep borrows simple.
    fn id_of<'a>(&self, reminder: &'a Reminder) -> (r: &'a str)
        ensures
            r@ == reminder.id@,
    {
        reminder.id.as_str()
    }

    /// Every unsent row due by `now`, in table order. Rows already sent, and
    /// rows due later than `now`, are never returned.
    pub fn get_reminders_before(&self, now: &DateTime) -> (r: Vec<Reminder>)
        requires
            self.wf(),
            now.wf(),
        ensures
            r@ == spec_due_unsent(self.rows(), now.total_seconds()),
    {
        let n: usize = self.rows.len();
        let mut r: Vec<Reminder> = Vec::new();
        let mut i: usize = 0;
        while i < n
            invariant
                0 <= i <= n,
                n == self.rows().len(),
                self.wf(),
                now.wf(),
                r@ == spec_due_unsent(self.rows().take(i as int), now.total_seconds()),
            decreases n - i,
        {
            let row = &self.rows[i];
            proof {
                assert(self.rows().take(i + 1).drop_last() =~= self.rows().take(i as int));
                assert(self.rows().take(i + 1).last() == self.rows()[i as int]);
            }
            if !row.sent && row.reminder.due.le(now) {
                r.push(row.reminder.clone());
            }
            i = i + 1;
        }
        proof {
            assert(self.rows().take(n as int) =~= self.rows());
        }
        r
    }

    /// Marks the row with this key as sent. A missing key changes nothing;
    /// marking twice is the same as marking once.
    pub fn delete_reminder(&mut self, id: &str)
        requires
            old(self).wf(),
        ensures
            final(self).wf(),
            final(self).rows() == spec_mark_sent(old(self).rows(), id@),
    {
        let n: usize = self.rows.len();
        let mut out: Vec<ReminderRow> = Vec::new();
        let mut i: usize = 0;
        while i < n
            invariant
                0 <= i <= n,
                n == self.rows().len(),
                old(self) == self,
                self.wf(),
                out@ =~= spec_mark_sent(self.rows().take(i as int), id@),
            decreases n - i,
        {
            let row = &self.rows[i];
            proof {
                assert(self.rows().take(i + 1) =~= self.rows().take(i as int).push(
                    self.rows()[i as int],
                ));
            }
            if crate::text::str_eq(row.reminder.id.as_str(), id) {
                out.push(ReminderRow { reminder: row.reminder.clone(), sent: true });
            } else {
                out.push(row.clone());
            }
            proof {
                assert(out@ =~= spec_mark_sent(self.rows().take(i + 1), id@));
            }
            i = i + 1;
        }
        proof {
            assert(self.rows().take(n as int) =~= self.rows());
        }
        self.rows = out;
        proof {
            lemma_mark_sent_keeps_reminders(old(self).rows(), id@);
        }
    }
}

/// Marking a row sent touches the flag alone: every reminder — its key, its
/// due instant, its destination and its text — stays exactly as it was, so
/// `due` is never mutated once a row is in the table.
pub proof fn lemma_mark_sent_keeps_reminders(rows: Seq<ReminderRow>, id: Seq<char>)
    ensures
        spec_mark_sent(rows, id).len() == rows.len(),
        forall|i: int|
            0 <= i < rows.len() ==> (#[trigger] spec_mark_sent(rows, id)[i]).reminder
                == rows[i].reminder,
{
}

/// Marking a key sent is idempotent: a second marking leaves the rows of the
/// first unchanged, so two successive calls to `delete_reminder` produce the
/// same store state as one.
pub proof fn lemma_mark_sent_idempotent(rows: Seq<ReminderRow>, id: Seq<char>)
    ensures
        spec_mark_sent(spec_mark_sent(rows, id), id) == spec_mark_sent(rows, id),
{
    assert(spec_mark_sent(spec_mark_sent(rows, id), id) =~= spec_mark_sent(rows, id));
}

/// What the range query promises: every returned reminder is due by `t` and
/// stands in some unsent row; no sent row and no later-due row contributes.
pub proof fn lemma_due_unsent_sound(rows: Seq<ReminderRow>, t: int)
    ensures
        forall|i: int|
            #![trigger spec_due_unsent(rows, t)[i]]
            0 <= i < spec_due_unsent(rows, t).len() ==> spec_due_unsent(rows, t)[i].due.total_seconds()
                <= t,
        forall|i: int|
            #![trigger spec_due_unsent(rows, t)[i]]
            0 <= i < spec_due_unsent(rows, t).len() ==> exists|j: int|
                0 <= j < rows.len() && !(#[trigger] rows[j]).sent && rows[j].reminder
                    == spec_due_unsent(rows, t)[i],
    decreases rows.len(),
{
    if rows.len() > 0 {
        lemma_due_unsent_sound(rows.drop_last(), t);
        let prev = spec_due_unsent(rows.drop_last(), t);
        let cur = spec_due_unsent(rows, t);
        assert forall|i: int|
            #![trigger cur[i]]
            0 <= i < cur.len() implies exists|j: int|
            0 <= j < rows.len() && !(#[trigger] rows[j]).sent && rows[j].reminder == cur[i] by {
            if i < prev.len() {
                let j = choose|j: int|
                    0 <= j < rows.drop_last().len() && !(#[trigger] rows.drop_last()[j]).sent
                        && rows.drop_last()[j].reminder == prev[i];
                assert(rows[j] == rows.drop_last()[j]);
                assert(!rows[j].sent && rows[j].reminder == cur[i]);
            } else {
                let j = rows.len() - 1;
                assert(!rows[j].sent && rows[j].reminder == cur[i]);
            }
        }
    }
}

} // verus!
