//! A table of values by address.

use crate::address::Address;
use vstd::prelude::*;

verus! {

/// Values by address, at most one for each.
pub struct Table<V> {
    entries: Vec<(Address, V)>,
}

/// Where a list of entries holds an address.
pub closed spec fn holds_at<V>(entries: Seq<(Address, V)>, user: Address, i: int) -> bool {
    0 <= i < entries.len() && entries[i].0 == user
}

impl<V> View for Table<V> {
    type V = Map<Address, V>;

    closed spec fn view(&self) -> Map<Address, V> {
        Map::new(
            |user: Address| exists|i: int| holds_at(self.entries@, user, i),
            |user: Address| self.entries@[choose|i: int| holds_at(self.entries@, user, i)].1,
        )
    }
}

impl<V> Table<V> {
    /// No address occurs twice.
    pub closed spec fn wf(&self) -> bool {
        forall|i: int, j: int|
            0 <= i < j < self.entries@.len() ==> (#[trigger] self.entries@[i]).0
                != (#[trigger] self.entries@[j]).0
    }

    proof fn lemma_entry(&self, i: int)
        requires
            self.wf(),
            0 <= i < self.entries@.len(),
        ensures
            self@.contains_key(self.entries@[i].0),
            self@[self.entries@[i].0] == self.entries@[i].1,
    {
        let user = self.entries@[i].0;
        assert(holds_at(self.entries@, user, i));
        let j = choose|j: int| holds_at(self.entries@, user, j);
        assert(j == i);
    }

    /// A table holds finitely many addresses.
    pub proof fn lemma_finite(&self)
        ensures
            self@.dom().finite(),
    {
        let users = self.entries@.map_values(|e: (Address, V)| e.0);
        assert forall|user: Address| self@.dom().contains(user) implies users.to_set().contains(
            user,
        ) by {
            let i = choose|i: int| holds_at(self.entries@, user, i);
            assert(users[i] == user);
        }
        assert(users.to_set().finite()) by {
            vstd::seq_lib::seq_to_set_is_finite(users);
        }
        vstd::set_lib::lemma_set_subset_finite(users.to_set(), self@.dom());
    }

    /// An empty table.
    pub fn new() -> (table: Table<V>)
        ensures
            table.wf(),
            table@ == Map::<Address, V>::empty(),
    {
        let table = Table { entries: Vec::new() };
        assert(table@ =~= Map::<Address, V>::empty());
        table
    }

    /// Where the table holds an address.
    fn find(&self, user: &Address) -> (found: Option<usize>)
        requires
            self.wf(),
        ensures
            match found {
                Some(i) => i < self.entries@.len() && self.entries@[i as int].0 == *user
                    && self@.contains_key(*user) && self@[*user] == self.entries@[i as int].1,
                None => !self@.contains_key(*user) && forall|i: int|
                    0 <= i < self.entries@.len() ==> (#[trigger] self.entries@[i]).0 != *user,
            },
    {
        let mut i: usize = 0;
        while i < self.entries.len()
            invariant
                self.wf(),
                i <= self.entries@.len(),
                forall|j: int| 0 <= j < i ==> (#[trigger] self.entries@[j]).0 != *user,
            decreases self.entries@.len() - i,
        {
            if self.entries[i].0 == *user {
                proof {
                    self.lemma_entry(i as int);
                }
                return Some(i);
            }
            i += 1;
        }
        None
    }

    /// Stores a value for an address, in place of the one before.
    pub fn set(&mut self, user: Address, value: V)
        requires
            old(self).wf(),
        ensures
            final(self).wf(),
            final(self)@ == old(self)@.insert(user, value),
    {
        let ghost before = *self;
        let found = self.find(&user);
        match found {
            Some(i) => {
                self.entries.set(i, (user, value));
            },
            None => {
                self.entries.push((user, value));
            },
        }
        proof {
            let at = match found {
                Some(i) => i as int,
                None => before.entries@.len() as int,
            };
            assert(self.entries@[at] == (user, value));
            assert(self.wf());
            let after = before@.insert(user, value);
            assert forall|u: Address| #[trigger]
                self@.dom().contains(u) == after.dom().contains(u) && (self@.dom().contains(u)
                    ==> self@[u] == after[u]) by {
                if u == user {
                    self.lemma_entry(at);
                } else {
                    if self@.contains_key(u) {
                        let i = choose|i: int| holds_at(self.entries@, u, i);
                        assert(before.entries@[i] == self.entries@[i]);
                        self.lemma_entry(i);
                        before.lemma_entry(i);
                    }
                    if before@.contains_key(u) {
                        let i = choose|i: int| holds_at(before.entries@, u, i);
                        assert(before.entries@[i] == self.entries@[i]);
                        self.lemma_entry(i);
                        before.lemma_entry(i);
                    }
                }
            }
            assert(self@ =~= after);
        }
    }

    /// Removes the value for an address, where there is one.
    pub fn remove(&mut self, user: &Address)
        requires
            old(self).wf(),
        ensures
            final(self).wf(),
            final(self)@ == old(self)@.remove(*user),
    {
        let ghost before = *self;
        match self.find(user) {
            Some(at) => {
                let removed = self.entries.remove(at);
                proof {
                    assert forall|i: int| 0 <= i < self.entries@.len() implies (
                    #[trigger] self.entries@[i]) == before.entries@[if i < at {
                        i
                    } else {
                        i + 1
                    }] by {}
                    assert(self.wf());
                    let after = before@.remove(*user);
                    assert forall|u: Address| #[trigger]
                        self@.dom().contains(u) == after.dom().contains(u) && (
                        self@.dom().contains(u) ==> self@[u] == after[u]) by {
                        if self@.contains_key(u) {
                            let i = choose|i: int| holds_at(self.entries@, u, i);
                            self.lemma_entry(i);
                            before.lemma_entry(
                                if i < at {
                                    i
                                } else {
                                    i + 1
                                },
                            );
                        }
                        if after.contains_key(u) {
                            let i = choose|i: int| holds_at(before.entries@, u, i);
                            before.lemma_entry(i);
                            assert(i != at);
                            let k = if i < at {
                                i
                            } else {
                                i - 1
                            };
                            assert(self.entries@[k] == before.entries@[i]);
                            self.lemma_entry(k);
                        }
                    }
                    assert(self@ =~= after);
                }
            },
            None => {
                assert(self@ =~= before@.remove(*user));
            },
        }
    }
}

impl<V: Copy> Table<V> {
    /// The value for an address.
    pub fn get(&self, user: &Address) -> (value: Option<V>)
        requires
            self.wf(),
        ensures
            value == self@.get(*user),
    {
        match self.find(user) {
            Some(i) => Some(self.entries[i].1),
            None => None,
        }
    }

    /// Another table with the same contents.
    pub fn duplicate(&self) -> (table: Table<V>)
        requires
            self.wf(),
        ensures
            table.wf(),
            table@ == self@,
    {
        let mut entries: Vec<(Address, V)> = Vec::new();
        let mut i: usize = 0;
        while i < self.entries.len()
            invariant
                i <= self.entries@.len(),
                entries@ == self.entries@.take(i as int),
            decreases self.entries@.len() - i,
        {
            entries.push(self.entries[i]);
            proof {
                assert(self.entries@.take(i as int).push(self.entries@[i as int])
                    =~= self.entries@.take(i + 1));
            }
            i += 1;
        }
        assert(entries@ =~= self.entries@);
        Table { entries }
    }
}

} // verus!
