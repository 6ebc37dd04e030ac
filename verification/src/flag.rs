//! The cancellation flag's state: a one-shot boolean and a registry of
//! waiting tasks' identifiers, with a free list so identifiers are reused.
//! Once set, the flag stays set. A freshly issued identifier never collides
//! with a registered one, so a waker stored under it can never clobber
//! another waiter's. The surrounding program wraps this state in its lock,
//! stores the actual task handles under the identifiers, and wakes them
//! when the flag is set.

use vstd::prelude::*;

verus! {

/// The one-shot cancellation flag's state.
#[derive(Debug)]
pub struct Flag {
    value: bool,
    tasks: Vec<u32>,
    available_ids: Vec<u32>,
    next_id: u32,
}

impl Flag {
    /// Identifiers of the currently registered waiters.
    pub closed spec fn tasks(self) -> Seq<u32> {
        self.tasks@
    }

    pub closed spec fn is_set(self) -> bool {
        self.value
    }

    pub closed spec fn free_ids(self) -> Seq<u32> {
        self.available_ids@
    }

    pub closed spec fn next_id(self) -> u32 {
        self.next_id
    }

    /// Registered and free identifiers are distinct, disjoint, and below the
    /// high-water mark.
    pub closed spec fn wf(self) -> bool {
        &&& forall|i: int, j: int|
            0 <= i < j < self.tasks@.len() ==> self.tasks@[i] != self.tasks@[j]
        &&& forall|i: int, j: int|
            0 <= i < j < self.available_ids@.len() ==> self.available_ids@[i]
                != self.available_ids@[j]
        &&& forall|i: int|
            0 <= i < self.available_ids@.len() ==> !self.tasks@.contains(
                #[trigger] self.available_ids@[i],
            )
        &&& forall|i: int| 0 <= i < self.tasks@.len() ==> #[trigger] self.tasks@[i] < self.next_id
        &&& forall|i: int|
            0 <= i < self.available_ids@.len() ==> #[trigger] self.available_ids@[i] < self.next_id
    }

    /// An unset flag with no waiters.
    pub fn new() -> (r: Flag)
        ensures
            r.wf(),
            !r.is_set(),
            r.tasks() == Seq::<u32>::empty(),
    {
        Flag { value: false, tasks: Vec::new(), available_ids: Vec::new(), next_id: 0 }
    }

    /// Sets the flag. Idempotent, and never unset again: after any number of
    /// calls the flag reads set. The registered waiters stay, for the caller
    /// to wake.
    pub fn set(&mut self)
        requires
            old(self).wf(),
        ensures
            final(self).wf(),
            final(self).is_set(),
            final(self).tasks() == old(self).tasks(),
            final(self).free_ids() == old(self).free_ids(),
            final(self).next_id() == old(self).next_id(),
    {
        self.value = true;
    }

    /// Whether the flag was set.
    pub fn get(&self) -> (r: bool)
        ensures
            r == self.is_set(),
    {
        self.value
    }

    /// An identifier no registered waiter holds: a recycled one if the free
    /// list has one, else the next fresh number.
    fn get_next_id(&mut self) -> (id: u32)
        requires
            old(self).wf(),
            old(self).next_id() < 0xffff_ffff,
        ensures
            final(self).wf(),
            !final(self).tasks().contains(id),
            final(self).tasks() == old(self).tasks(),
            final(self).is_set() == old(self).is_set(),
            !final(self).free_ids().contains(id),
            id < final(self).next_id(),
            final(self).next_id() < 0xffff_ffff || final(self).next_id() == old(self).next_id()
                + 1,
            forall|i: int|
                0 <= i < final(self).free_ids().len() ==> old(self).free_ids().contains(
                    #[trigger] final(self).free_ids()[i],
                ),
    {
        match self.available_ids.pop() {
            Some(id) => {
                proof {
                    assert(old(self).free_ids().contains(id));
                    assert forall|i: int|
                        0 <= i < self.available_ids@.len() implies old(self).free_ids().contains(
                        #[trigger] self.available_ids@[i],
                    ) by {
                        assert(self.available_ids@[i] == old(self).available_ids@[i]);
                    }
                    if self.available_ids@.contains(id) {
                        let i = choose|i: int|
                            0 <= i < self.available_ids@.len() && self.available_ids@[i] == id;
                        assert(old(self).available_ids@[i] == old(self).available_ids@.last());
                        assert(false);
                    }
                }
                id
            },
            None => {
                let id = self.next_id;
                self.next_id = self.next_id + 1;
                id
            },
        }
    }

    /// Registers a new waiter and returns its identifier, fresh among the
    /// registered ones: the caller can store a task handle under it without
    /// touching any other waiter's.
    pub fn register_new_task(&mut self) -> (id: u32)
        requires
            old(self).wf(),
            old(self).next_id() < 0xffff_ffff,
        ensures
            final(self).wf(),
            !old(self).tasks().contains(id),
            final(self).tasks() == old(self).tasks().push(id),
            final(self).is_set() == old(self).is_set(),
    {
        let id = self.get_next_id();
        self.tasks.push(id);
        proof {
            assert forall|i: int, j: int|
                0 <= i < j < self.tasks@.len() implies self.tasks@[i] != self.tasks@[j] by {
                if j < self.tasks@.len() - 1 {
                    assert(old(self).tasks()[i] != old(self).tasks()[j]);
                }
            }
        }
        id
    }

    /// Removes a waiter, recycling its identifier; a registration is removed
    /// when its waiter goes away, so the registry cannot grow without bound.
    /// An identifier that is not registered changes nothing.
    pub fn discard_task(&mut self, id: u32)
        requires
            old(self).wf(),
        ensures
            final(self).wf(),
            final(self).tasks() == old(self).tasks().remove_value(id),
            final(self).is_set() == old(self).is_set(),
    {
        let n: usize = self.tasks.len();
        let mut i: usize = 0;
        while i < n
            invariant
                0 <= i <= n,
                n == self.tasks@.len(),
                self == old(self),
                old(self).wf(),
                forall|j: int| 0 <= j < i ==> self.tasks@[j] != id,
            decreases n - i,
        {
            if self.tasks[i] == id {
                self.tasks.remove(i);
                self.available_ids.push(id);
                proof {
                    let t0 = old(self).tasks();
                    assert(t0.index_of_first(id) == Some(i as int)) by {
                        lemma_index_of_first(t0, id, i as int);
                    }
                    assert(final(self).tasks() =~= t0.remove_value(id));
                    assert forall|a: int, b: int|
                        0 <= a < b < self.available_ids@.len() implies self.available_ids@[a]
                        != self.available_ids@[b] by {
                        if b < self.available_ids@.len() - 1 {
                            assert(old(self).available_ids@[a] != old(self).available_ids@[b]);
                        } else {
                            assert(old(self).available_ids@[a] != id);
                        }
                    }
                }
                return ;
            }
            i = i + 1;
        }
        proof {
            let t0 = old(self).tasks();
            assert(!t0.contains(id));
            if t0.index_of_first(id) is Some {
                lemma_index_of_first_some(t0, id);
                assert(false);
            }
            assert(final(self).tasks() =~= t0.remove_value(id));
        }
    }
}

/// If `s[i] == v` and nothing before `i` is `v`, the first occurrence is `i`.
proof fn lemma_index_of_first(s: Seq<u32>, v: u32, i: int)
    requires
        0 <= i < s.len(),
        s[i] == v,
        forall|j: int| 0 <= j < i ==> s[j] != v,
    ensures
        s.index_of_first(v) == Some(i),
{
    s.index_of_first_ensures(v);
}

/// A found first occurrence means the value occurs.
proof fn lemma_index_of_first_some(s: Seq<u32>, v: u32)
    requires
        s.index_of_first(v) is Some,
    ensures
        s.contains(v),
{
    s.index_of_first_ensures(v);
}

} // verus!
