//! A map from integers to values that is walked in ascending key order.
use vstd::prelude::*;

verus! {

/// A map kept as a list of entries with strictly ascending keys.
#[derive(Clone, Debug)]
pub struct Table<V> {
    entries: Vec<(u64, V)>,
}

/// The keys of the entries ascend strictly.
pub open spec fn ascending<V>(s: Seq<(u64, V)>) -> bool {
    forall|i: int, j: int| 0 <= i < j < s.len() ==> (#[trigger] s[i]).0 < (#[trigger] s[j]).0
}

/// Whether some entry has this key.
pub open spec fn has_key<V>(s: Seq<(u64, V)>, k: u64) -> bool {
    exists|i: int| 0 <= i < s.len() && (#[trigger] s[i]).0 == k
}

/// The value under this key.
pub open spec fn value_of<V>(s: Seq<(u64, V)>, k: u64) -> V {
    s[choose|i: int| 0 <= i < s.len() && (#[trigger] s[i]).0 == k].1
}

/// The map that a list of entries stands for.
pub open spec fn map_of<V>(s: Seq<(u64, V)>) -> Map<u64, V> {
    Map::new(|k: u64| has_key(s, k), |k: u64| value_of(s, k))
}

proof fn lemma_lookup<V>(s: Seq<(u64, V)>, i: int)
    requires
        ascending(s),
        0 <= i < s.len(),
    ensures
        map_of(s).contains_key(s[i].0),
        map_of(s)[s[i].0] == s[i].1,
{
    let k = s[i].0;
    assert(has_key(s, k));
    let j = choose|j: int| 0 <= j < s.len() && (#[trigger] s[j]).0 == k;
    if i < j {
        assert(s[i].0 < s[j].0);
    } else if j < i {
        assert(s[j].0 < s[i].0);
    }
}

impl<V> Table<V> {
    /// The entries, in ascending key order.
    pub closed spec fn entries(&self) -> Seq<(u64, V)> {
        self.entries@
    }

    /// The keys ascend strictly.
    pub open spec fn wf(&self) -> bool {
        ascending(self.entries())
    }

    /// The map from keys to values.
    pub open spec fn view(&self) -> Map<u64, V> {
        map_of(self.entries())
    }

    /// The empty map.
    pub fn new() -> (res: Self)
        ensures
            res.wf(),
            res.entries().len() == 0,
            res@ == Map::<u64, V>::empty(),
    {
        let res = Table { entries: Vec::new() };
        assert(map_of(res.entries@) =~= Map::<u64, V>::empty());
        res
    }

    /// How many entries there are.
    pub fn len(&self) -> (res: usize)
        ensures
            res == self.entries().len(),
    {
        self.entries.len()
    }

    /// The entry at `i` in key order.
    pub fn at(&self, i: usize) -> (res: (u64, &V))
        requires
            i < self.entries().len(),
        ensures
            res.0 == self.entries()[i as int].0,
            *res.1 == self.entries()[i as int].1,
    {
        let e = &self.entries[i];
        (e.0, &e.1)
    }

    /// How many keys are less than `k`.
    fn rank(&self, k: u64) -> (res: usize)
        requires
            self.wf(),
        ensures
            res <= self.entries().len(),
            forall|j: int| 0 <= j < res ==> (#[trigger] self.entries()[j]).0 < k,
            forall|j: int|
                res <= j < self.entries().len() ==> (#[trigger] self.entries()[j]).0 >= k,
    {
        let mut i: usize = 0;
        while i < self.entries.len() && self.entries[i].0 < k
            invariant
                self.wf(),
                i <= self.entries@.len(),
                forall|j: int| 0 <= j < i ==> (#[trigger] self.entries@[j]).0 < k,
            decreases self.entries@.len() - i,
        {
            i += 1;
        }
        i
    }

    /// The value under `k`.
    pub fn get(&self, k: u64) -> (res: Option<&V>)
        requires
            self.wf(),
        ensures
            match res {
                Some(v) => self@.contains_key(k) && *v == self@[k],
                None => !self@.contains_key(k),
            },
    {
        let i = self.rank(k);
        if i < self.entries.len() && self.entries[i].0 == k {
            proof {
                lemma_lookup(self.entries@, i as int);
            }
            Some(&self.entries[i].1)
        } else {
            None
        }
    }

    /// Put `v` under `k`, in place of what was there.
    pub fn insert(&mut self, k: u64, v: V)
        requires
            old(self).wf(),
        ensures
            final(self).wf(),
            final(self)@ == old(self)@.insert(k, v),
            final(self).entries().len() <= old(self).entries().len() + 1,
            old(self)@.contains_key(k) ==> final(self).entries().len() == old(
                self,
            ).entries().len(),
    {
        let i = self.rank(k);
        let ghost before = self.entries@;
        if i < self.entries.len() && self.entries[i].0 == k {
            self.entries.set(i, (k, v));
            proof {
                let after = self.entries@;
                assert forall|q: u64| has_key(after, q) <==> has_key(before, q) by {
                    if has_key(before, q) {
                        let j = choose|j: int| 0 <= j < before.len() && (#[trigger] before[j]).0 == q;
                        assert(after[j].0 == q);
                    }
                    if has_key(after, q) {
                        let j = choose|j: int| 0 <= j < after.len() && (#[trigger] after[j]).0 == q;
                        assert(before[j].0 == q);
                    }
                }
                lemma_lookup(before, i as int);
                lemma_lookup(after, i as int);
                assert forall|q: u64| has_key(after, q) && q != k implies map_of(after)[q]
                    == map_of(before)[q] by {
                    let j = choose|j: int| 0 <= j < after.len() && (#[trigger] after[j]).0 == q;
                    lemma_lookup(after, j);
                    lemma_lookup(before, j);
                }
                assert(map_of(after) =~= map_of(before).insert(k, v));
            }
        } else {
            self.entries.insert(i, (k, v));
            proof {
                let after = self.entries@;
                assert(after[i as int] == (k, v));
                assert(ascending(after)) by {
                    assert forall|a: int, b: int| 0 <= a < b < after.len() implies (
                    #[trigger] after[a]).0 < (#[trigger] after[b]).0 by {
                        let x = if a < i {
                            before[a].0
                        } else if a == i {
                            k
                        } else {
                            before[a - 1].0
                        };
                        let y = if b < i {
                            before[b].0
                        } else if b == i {
                            k
                        } else {
                            before[b - 1].0
                        };
                        assert(after[a].0 == x && after[b].0 == y);
                    }
                }
                lemma_lookup(after, i as int);
                assert(!has_key(before, k)) by {
                    if has_key(before, k) {
                        let j = choose|j: int| 0 <= j < before.len() && (#[trigger] before[j]).0 == k;
                        if j < i {
                            assert(before[j].0 < k);
                        } else {
                            assert(before[i as int].0 > k);
                            if j > i {
                                assert(before[i as int].0 < before[j].0);
                            }
                        }
                    }
                }
                assert forall|q: u64| q != k implies has_key(after, q) == has_key(before, q) by {
                    if has_key(before, q) {
                        let j = choose|j: int| 0 <= j < before.len() && (#[trigger] before[j]).0 == q;
                        let m = if j < i {
                            j
                        } else {
                            j + 1
                        };
                        assert(after[m].0 == q);
                    }
                    if has_key(after, q) {
                        let j = choose|j: int| 0 <= j < after.len() && (#[trigger] after[j]).0 == q;
                        let m = if j < i {
                            j
                        } else {
                            j - 1
                        };
                        assert(before[m].0 == q);
                    }
                }
                assert forall|q: u64| has_key(before, q) implies map_of(after)[q] == map_of(
                    before,
                )[q] by {
                    let j = choose|j: int| 0 <= j < before.len() && (#[trigger] before[j]).0 == q;
                    lemma_lookup(before, j);
                    let m = if j < i {
                        j
                    } else {
                        j + 1
                    };
                    assert(after[m] == before[j]);
                    lemma_lookup(after, m);
                }
                assert(map_of(after) =~= map_of(before).insert(k, v));
            }
        }
    }

    /// Take out the entry at `i` in key order.
    pub fn remove_at(&mut self, i: usize) -> (res: (u64, V))
        requires
            old(self).wf(),
            i < old(self).entries().len(),
        ensures
            final(self).wf(),
            res == old(self).entries()[i as int],
            final(self).entries() == old(self).entries().remove(i as int),
            final(self)@ == old(self)@.remove(res.0),
    {
        let ghost before = self.entries@;
        let res = self.entries.remove(i);
        proof {
            let after = self.entries@;
            let k = before[i as int].0;
            assert forall|a: int, b: int| 0 <= a < b < after.len() implies (#[trigger] after[a]).0
                < (#[trigger] after[b]).0 by {
                let x = if a < i {
                    a
                } else {
                    a + 1
                };
                let y = if b < i {
                    b
                } else {
                    b + 1
                };
                assert(before[x].0 < before[y].0);
            }
            assert(!has_key(after, k)) by {
                if has_key(after, k) {
                    let j = choose|j: int| 0 <= j < after.len() && (#[trigger] after[j]).0 == k;
                    if j < i {
                        assert(before[j].0 < before[i as int].0);
                    } else {
                        assert(before[i as int].0 < before[j + 1].0);
                    }
                }
            }
            assert forall|q: u64| q != k implies has_key(after, q) == has_key(before, q) by {
                if has_key(before, q) {
                    let j = choose|j: int| 0 <= j < before.len() && (#[trigger] before[j]).0 == q;
                    let m = if j < i {
                        j
                    } else {
                        j - 1
                    };
                    assert(after[m].0 == q);
                }
                if has_key(after, q) {
                    let j = choose|j: int| 0 <= j < after.len() && (#[trigger] after[j]).0 == q;
                    let m = if j < i {
                        j
                    } else {
                        j + 1
                    };
                    assert(before[m].0 == q);
                }
            }
            assert forall|q: u64| has_key(after, q) implies map_of(after)[q] == map_of(
                before,
            )[q] by {
                let j = choose|j: int| 0 <= j < after.len() && (#[trigger] after[j]).0 == q;
                lemma_lookup(after, j);
                let m = if j < i {
                    j
                } else {
                    j + 1
                };
                assert(after[j] == before[m]);
                lemma_lookup(before, m);
            }
            assert(map_of(after) =~= map_of(before).remove(k));
        }
        res
    }
}

/// What stands at a place in key order is what the map holds under that key.
pub proof fn law_entries_are_the_map<V>(t: Table<V>, i: int)
    requires
        t.wf(),
        0 <= i < t.entries().len(),
    ensures
        t@.contains_key(t.entries()[i].0),
        t@[t.entries()[i].0] == t.entries()[i].1,
{
    lemma_lookup(t.entries(), i);
}

/// Entries are walked with ascending keys, and what is put under a key is found there.
pub proof fn law_keys_ascend<V>(t: Table<V>, i: int, j: int)
    requires
        t.wf(),
        0 <= i < j < t.entries().len(),
    ensures
        t.entries()[i].0 < t.entries()[j].0,
{
}

} // verus!
