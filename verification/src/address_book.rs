//! The address book: a read-only mapping from chat user identifier to SMS
//! destination. The bot only reads it; writes happen out of band, so the
//! model exposes one administrative insert to populate it.

use vstd::prelude::*;

verus! {

/// First entry with key `uid` at or after `i`, by its value.
pub open spec fn spec_lookup_from(
    entries: Seq<(String, String)>,
    uid: Seq<char>,
    i: int,
) -> Option<Seq<char>>
    decreases entries.len() - i,
{
    if i < 0 || i >= entries.len() {
        None
    } else if entries[i].0@ == uid {
        Some(entries[i].1@)
    } else {
        spec_lookup_from(entries, uid, i + 1)
    }
}

/// The destination on record for `uid`, or `None`: a miss is a normal
/// outcome, not an error.
pub open spec fn spec_lookup(entries: Seq<(String, String)>, uid: Seq<char>) -> Option<Seq<char>> {
    spec_lookup_from(entries, uid, 0)
}

#[derive(Debug)]
pub struct AddressBook {
    entries: Vec<(String, String)>,
}

impl AddressBook {
    pub closed spec fn entries(self) -> Seq<(String, String)> {
        self.entries@
    }

    /// Keys are unique, as a primary key makes them.
    pub open spec fn wf(self) -> bool {
        forall|i: int, j: int|
            0 <= i < j < self.entries().len() ==> self.entries()[i].0@ != self.entries()[j].0@
    }

    pub fn new() -> (r: AddressBook)
        ensures
            r.wf(),
            r.entries() == Seq::<(String, String)>::empty(),
    {
        AddressBook { entries: Vec::new() }
    }

    /// The administrative write: records a destination for a fresh user.
    /// An existing key is left as it stands, and `false` comes back.
    pub fn insert(&mut self, user_id: String, msisdn: String) -> (r: bool)
        requires
            old(self).wf(),
        ensures
            final(self).wf(),
            r == spec_lookup(old(self).entries(), user_id@) is None,
            r ==> final(self).entries() == old(self).entries().push((user_id, msisdn)),
            !r ==> final(self).entries() == old(self).entries(),
    {
        if self.get_msisdn_for_user(user_id.as_str()).is_some() {
            proof {
                lemma_lookup_hit_means_key(self.entries(), user_id@, 0);
            }
            return false;
        }
        proof {
            lemma_lookup_miss_means_no_key(self.entries(), user_id@, 0);
        }
        self.entries.push((user_id, msisdn));
        true
    }

    /// The destination on record for `user_id`, or `None`.
    pub fn get_msisdn_for_user(&self, user_id: &str) -> (r: Option<String>)
        ensures
            match spec_lookup(self.entries(), user_id@) {
                Some(m) => r is Some && r.unwrap()@ == m,
                None => r is None,
            },
    {
        let n: usize = self.entries.len();
        let mut i: usize = 0;
        while i < n
            invariant
                0 <= i <= n,
                n == self.entries().len(),
                spec_lookup(self.entries(), user_id@) == spec_lookup_from(
                    self.entries(),
                    user_id@,
                    i as int,
                ),
            decreases n - i,
        {
            if crate::text::str_eq(self.entries[i].0.as_str(), user_id) {
                return Some(self.entries[i].1.clone());
            }
            i = i + 1;
        }
        None
    }
}

/// A found key occurs among the entries.
proof fn lemma_lookup_hit_means_key(entries: Seq<(String, String)>, uid: Seq<char>, i: int)
    requires
        spec_lookup_from(entries, uid, i) is Some,
        0 <= i,
    ensures
        exists|j: int| i <= j < entries.len() && (#[trigger] entries[j]).0@ == uid,
    decreases entries.len() - i,
{
    if i < entries.len() && entries[i].0@ != uid {
        lemma_lookup_hit_means_key(entries, uid, i + 1);
    }
}

/// A missing key occurs in no entry.
proof fn lemma_lookup_miss_means_no_key(entries: Seq<(String, String)>, uid: Seq<char>, i: int)
    requires
        spec_lookup_from(entries, uid, i) is None,
        0 <= i,
    ensures
        forall|j: int| i <= j < entries.len() ==> (#[trigger] entries[j]).0@ != uid,
    decreases entries.len() - i,
{
    if i < entries.len() {
        lemma_lookup_miss_means_no_key(entries, uid, i + 1);
    }
}

} // verus!
