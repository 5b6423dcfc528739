//! A map from slots to values, kept in the order of the slots.

use vstd::prelude::*;

verus! {

/// A map from slots to values, walked in the order of the slots.
#[derive(Debug)]
pub struct SlotMap<T> {
    pub entries: Vec<(u32, T)>,
}

/// The slots rise.
pub open spec fn rising<T>(entries: Seq<(u32, T)>) -> bool {
    forall|i: int, j: int|
        0 <= i < j < entries.len() ==> (#[trigger] entries[i]).0 < (#[trigger] entries[j]).0
}

/// One of the entries is for slot `k`.
pub open spec fn holds<T>(entries: Seq<(u32, T)>, k: u32) -> bool {
    exists|i: int| 0 <= i < entries.len() && (#[trigger] entries[i]).0 == k
}

/// Where the entry for slot `k` stands.
pub open spec fn index_of_slot<T>(entries: Seq<(u32, T)>, k: u32) -> int {
    choose|i: int| 0 <= i < entries.len() && (#[trigger] entries[i]).0 == k
}

/// The map that the entries are.
pub open spec fn map_of<T>(entries: Seq<(u32, T)>) -> Map<u32, T> {
    Map::new(|k: u32| holds(entries, k), |k: u32| entries[index_of_slot(entries, k)].1)
}

/// Where slots rise, each stands in one place only.
proof fn lemma_place<T>(entries: Seq<(u32, T)>, i: int)
    requires
        rising(entries),
        0 <= i < entries.len(),
    ensures
        holds(entries, entries[i].0),
        index_of_slot(entries, entries[i].0) == i,
        map_of(entries).contains_key(entries[i].0),
        map_of(entries)[entries[i].0] == entries[i].1,
{
    let k = entries[i].0;
    let j = index_of_slot(entries, k);
    assert(0 <= j < entries.len() && entries[j].0 == k);
    if i < j {
        assert(entries[i].0 < entries[j].0);
    } else if j < i {
        assert(entries[j].0 < entries[i].0);
    }
}

/// Two runs of entries that pair up slots and values, but for `slot`, are maps that differ in
/// `slot` alone.
proof fn lemma_same_value<T>(a: Seq<(u32, T)>, i: int, b: Seq<(u32, T)>, j: int)
    requires
        rising(a),
        rising(b),
        0 <= i < a.len(),
        0 <= j < b.len(),
        a[i] == b[j],
    ensures
        map_of(a).contains_key(a[i].0),
        map_of(b).contains_key(a[i].0),
        map_of(a)[a[i].0] == map_of(b)[a[i].0],
{
    lemma_place(a, i);
    lemma_place(b, j);
}

proof fn lemma_set<T>(before: Seq<(u32, T)>, k: int, value: T)
    requires
        rising(before),
        0 <= k < before.len(),
    ensures
        rising(before.update(k, (before[k].0, value))),
        map_of(before.update(k, (before[k].0, value))) == map_of(before).insert(
            before[k].0,
            value,
        ),
{
    let slot = before[k].0;
    let after = before.update(k, (slot, value));
    assert forall|i: int, j: int| 0 <= i < j < after.len() implies (#[trigger] after[i]).0 < (
    #[trigger] after[j]).0 by {
        assert(before[i].0 < before[j].0);
    }
    lemma_place(after, k);
    lemma_place(before, k);
    assert forall|s: u32| #[trigger] map_of(after).contains_key(s) <==> map_of(before).insert(
        slot,
        value,
    ).contains_key(s) by {
        if map_of(after).contains_key(s) {
            let i = index_of_slot(after, s);
            assert(after[i].0 == s);
            assert(before[i].0 == s);
            lemma_place(before, i);
        }
        if map_of(before).contains_key(s) {
            let i = index_of_slot(before, s);
            assert(before[i].0 == s);
            assert(after[i].0 == s);
            lemma_place(after, i);
        }
    }
    assert forall|s: u32| #[trigger] map_of(after).contains_key(s) implies map_of(after)[s]
        == map_of(before).insert(slot, value)[s] by {
        let i = index_of_slot(after, s);
        assert(after[i].0 == s);
        lemma_place(after, i);
        lemma_place(before, i);
    }
    assert(map_of(after) =~= map_of(before).insert(slot, value));
}

proof fn lemma_insert<T>(before: Seq<(u32, T)>, k: int, slot: u32, value: T)
    requires
        rising(before),
        0 <= k <= before.len(),
        forall|i: int| 0 <= i < k ==> (#[trigger] before[i]).0 < slot,
        forall|i: int| k <= i < before.len() ==> (#[trigger] before[i]).0 > slot,
    ensures
        rising(before.insert(k, (slot, value))),
        map_of(before.insert(k, (slot, value))) == map_of(before).insert(slot, value),
        !map_of(before).contains_key(slot),
{
    let after = before.insert(k, (slot, value));
    if holds(before, slot) {
        let i = index_of_slot(before, slot);
        assert(before[i].0 == slot);
    }
    assert forall|i: int, j: int| 0 <= i < j < after.len() implies (#[trigger] after[i]).0 < (
    #[trigger] after[j]).0 by {
        let i0 = if i < k {
            i
        } else {
            i - 1
        };
        let j0 = if j < k {
            j
        } else {
            j - 1
        };
        if i == k {
            assert(after[j] == before[j0]);
        } else if j == k {
            assert(after[i] == before[i0]);
        } else {
            assert(after[i] == before[i0] && after[j] == before[j0]);
            assert(before[i0].0 < before[j0].0);
        }
    }
    assert(after[k] == (slot, value));
    lemma_place(after, k);
    assert forall|s: u32| #[trigger] map_of(after).contains_key(s) <==> map_of(before).insert(
        slot,
        value,
    ).contains_key(s) by {
        if map_of(after).contains_key(s) && s != slot {
            let i = index_of_slot(after, s);
            let i0 = if i < k {
                i
            } else {
                i - 1
            };
            assert(after[i].0 == s);
            assert(before[i0] == after[i]);
            lemma_place(before, i0);
        }
        if map_of(before).contains_key(s) {
            let i = index_of_slot(before, s);
            let i0 = if i < k {
                i
            } else {
                i + 1
            };
            assert(before[i].0 == s);
            assert(after[i0] == before[i]);
            lemma_place(after, i0);
        }
    }
    assert forall|s: u32| #[trigger] map_of(after).contains_key(s) implies map_of(after)[s]
        == map_of(before).insert(slot, value)[s] by {
        if s != slot {
            let i = index_of_slot(after, s);
            let i0 = if i < k {
                i
            } else {
                i - 1
            };
            assert(after[i].0 == s);
            assert(before[i0] == after[i]);
            lemma_same_value(after, i, before, i0);
        }
    }
    assert(map_of(after) =~= map_of(before).insert(slot, value));
}

proof fn lemma_remove<T>(before: Seq<(u32, T)>, k: int)
    requires
        rising(before),
        0 <= k < before.len(),
    ensures
        rising(before.remove(k)),
        map_of(before.remove(k)) == map_of(before).remove(before[k].0),
{
    let slot = before[k].0;
    let after = before.remove(k);
    assert forall|i: int, j: int| 0 <= i < j < after.len() implies (#[trigger] after[i]).0 < (
    #[trigger] after[j]).0 by {
        let i0 = if i < k {
            i
        } else {
            i + 1
        };
        let j0 = if j < k {
            j
        } else {
            j + 1
        };
        assert(after[i] == before[i0] && after[j] == before[j0]);
        assert(before[i0].0 < before[j0].0);
    }
    assert forall|s: u32| #[trigger] map_of(after).contains_key(s) <==> map_of(before).remove(
        slot,
    ).contains_key(s) by {
        if map_of(after).contains_key(s) {
            let i = index_of_slot(after, s);
            let i0 = if i < k {
                i
            } else {
                i + 1
            };
            assert(after[i].0 == s);
            assert(before[i0] == after[i]);
            lemma_place(before, i0);
            lemma_place(before, k);
        }
        if map_of(before).contains_key(s) && s != slot {
            let i = index_of_slot(before, s);
            let i0 = if i < k {
                i
            } else {
                i - 1
            };
            assert(before[i].0 == s);
            assert(after[i0] == before[i]);
            lemma_place(after, i0);
        }
    }
    assert forall|s: u32| #[trigger] map_of(after).contains_key(s) implies map_of(after)[s]
        == map_of(before).remove(slot)[s] by {
        let i = index_of_slot(after, s);
        let i0 = if i < k {
            i
        } else {
            i + 1
        };
        assert(after[i].0 == s);
        assert(before[i0] == after[i]);
        lemma_same_value(after, i, before, i0);
    }
    assert(map_of(after) =~= map_of(before).remove(slot));
}

impl<T> View for SlotMap<T> {
    type V = Map<u32, T>;

    open spec fn view(&self) -> Map<u32, T> {
        map_of(self.entries@)
    }
}

impl<T: Copy> SlotMap<T> {
    /// The slots rise.
    pub open spec fn wf(self) -> bool {
        rising(self.entries@)
    }

    pub fn new() -> (r: Self)
        ensures
            r.wf(),
            r@ == Map::<u32, T>::empty(),
            r.entries@.len() == 0,
    {
        SlotMap { entries: Vec::new() }
    }

    /// Where `slot` stands, or would stand: behind all smaller ones.
    fn place(&self, slot: u32) -> (r: usize)
        requires
            self.wf(),
        ensures
            r <= self.entries@.len(),
            forall|i: int| 0 <= i < r ==> (#[trigger] self.entries@[i]).0 < slot,
            forall|i: int| r <= i < self.entries@.len() ==> (#[trigger] self.entries@[i]).0 >= slot,
    {
        let mut k: usize = 0;
        while k < self.entries.len() && self.entries[k].0 < slot
            invariant
                k <= self.entries@.len(),
                forall|i: int| 0 <= i < k ==> (#[trigger] self.entries@[i]).0 < slot,
            decreases self.entries@.len() - k,
        {
            k = k + 1;
        }
        assert forall|i: int| k <= i < self.entries@.len() implies (
        #[trigger] self.entries@[i]).0 >= slot by {
            if k < i {
                assert(self.entries@[k as int].0 < self.entries@[i].0);
            }
        }
        k
    }

    /// The value of `slot`, where it has one.
    pub fn get(&self, slot: u32) -> (r: Option<T>)
        requires
            self.wf(),
        ensures
            r == (if self@.contains_key(slot) {
                Some(self@[slot])
            } else {
                None
            }),
    {
        let k: usize = self.place(slot);
        if k < self.entries.len() && self.entries[k].0 == slot {
            proof {
                lemma_place(self.entries@, k as int);
            }
            Some(self.entries[k].1)
        } else {
            proof {
                if holds(self.entries@, slot) {
                    let i = index_of_slot(self.entries@, slot);
                    assert(self.entries@[i].0 == slot);
                    if k < i {
                        assert(self.entries@[k as int].0 < self.entries@[i].0);
                    }
                }
            }
            None
        }
    }

    /// Gives `slot` a value; gives the one that it had.
    pub fn insert(&mut self, slot: u32, value: T) -> (r: Option<T>)
        requires
            old(self).wf(),
        ensures
            final(self).wf(),
            final(self)@ == old(self)@.insert(slot, value),
            r == (if old(self)@.contains_key(slot) {
                Some(old(self)@[slot])
            } else {
                None
            }),
    {
        let ghost before = self.entries@;
        let k: usize = self.place(slot);
        if k < self.entries.len() && self.entries[k].0 == slot {
            proof {
                lemma_place(before, k as int);
                lemma_set(before, k as int, value);
            }
            let was: T = self.entries[k].1;
            self.entries.set(k, (slot, value));
            Some(was)
        } else {
            proof {
                assert forall|i: int| k <= i < before.len() implies (#[trigger] before[i]).0
                    > slot by {
                    if k < i {
                        assert(before[k as int].0 < before[i].0);
                    }
                }
                lemma_insert(before, k as int, slot, value);
            }
            self.entries.insert(k, (slot, value));
            None
        }
    }

    /// Takes the value of `slot` away; gives it.
    pub fn remove(&mut self, slot: u32) -> (r: Option<T>)
        requires
            old(self).wf(),
        ensures
            final(self).wf(),
            final(self)@ == old(self)@.remove(slot),
            r == (if old(self)@.contains_key(slot) {
                Some(old(self)@[slot])
            } else {
                None
            }),
    {
        let ghost before = self.entries@;
        let k: usize = self.place(slot);
        if k < self.entries.len() && self.entries[k].0 == slot {
            proof {
                lemma_place(before, k as int);
                lemma_remove(before, k as int);
            }
            let was: (u32, T) = self.entries.remove(k);
            Some(was.1)
        } else {
            proof {
                if holds(before, slot) {
                    let i = index_of_slot(before, slot);
                    assert(before[i].0 == slot);
                    if k < i {
                        assert(before[k as int].0 < before[i].0);
                    }
                }
                assert(map_of(before).remove(slot) =~= map_of(before));
            }
            None
        }
    }
}

} // verus!
