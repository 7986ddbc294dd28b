//! Values by name, in the order of the names.
use vstd::prelude::*;

use crate::text;

verus! {

/// Whether `a` comes before `b` in the order of their characters.
pub open spec fn before(a: Seq<char>, b: Seq<char>) -> bool
    decreases a.len(),
{
    if b.len() == 0 {
        false
    } else if a.len() == 0 {
        true
    } else if a[0] != b[0] {
        a[0] < b[0]
    } else {
        before(a.skip(1), b.skip(1))
    }
}

/// The order of names is total and strict.
pub proof fn law_names_are_ordered(a: Seq<char>, b: Seq<char>, c: Seq<char>)
    ensures
        !before(a, a),
        before(a, b) || before(b, a) || a == b,
        !(before(a, b) && before(b, a)),
        before(a, b) && before(b, c) ==> before(a, c),
    decreases a.len() + b.len() + c.len(),
{
    if a.len() > 0 {
        lemma_irreflexive(a);
    }
    lemma_total(a, b);
    if before(a, b) && before(b, c) {
        lemma_transitive(a, b, c);
    }
    if before(a, b) && before(b, a) {
        lemma_transitive(a, b, a);
        lemma_irreflexive(a);
    }
}

proof fn lemma_irreflexive(a: Seq<char>)
    ensures
        !before(a, a),
    decreases a.len(),
{
    if a.len() > 0 {
        lemma_irreflexive(a.skip(1));
    }
}

proof fn lemma_total(a: Seq<char>, b: Seq<char>)
    ensures
        before(a, b) || before(b, a) || a == b,
    decreases a.len(),
{
    if a.len() > 0 && b.len() > 0 {
        if a[0] == b[0] {
            lemma_total(a.skip(1), b.skip(1));
            if a.skip(1) == b.skip(1) {
                assert(a =~= seq![a[0]] + a.skip(1));
                assert(b =~= seq![b[0]] + b.skip(1));
            }
        }
    } else if a.len() == 0 && b.len() == 0 {
        assert(a =~= b);
    }
}

proof fn lemma_transitive(a: Seq<char>, b: Seq<char>, c: Seq<char>)
    requires
        before(a, b),
        before(b, c),
    ensures
        before(a, c),
    decreases a.len(),
{
    if a.len() > 0 && a[0] == b[0] && b[0] == c[0] {
        lemma_transitive(a.skip(1), b.skip(1), c.skip(1));
    }
}

fn comes_before_at(a: &Vec<char>, b: &Vec<char>, i: usize) -> (res: bool)
    requires
        i <= a@.len(),
        i <= b@.len(),
    ensures
        res == before(a@.skip(i as int), b@.skip(i as int)),
    decreases a@.len() - i,
{
    let n: usize = a.len();
    let m: usize = b.len();
    if i == m {
        false
    } else if i == n {
        true
    } else if a[i] != b[i] {
        a[i] < b[i]
    } else {
        assert(a@.skip(i as int).skip(1) =~= a@.skip(i + 1));
        assert(b@.skip(i as int).skip(1) =~= b@.skip(i + 1));
        comes_before_at(a, b, i + 1)
    }
}

/// Whether `a` comes before `b` in the order of their characters.
pub fn comes_before(a: &str, b: &str) -> (res: bool)
    ensures
        res == before(a@, b@),
{
    let x = text::chars_of(a);
    let y = text::chars_of(b);
    assert(x@.skip(0) =~= x@);
    assert(y@.skip(0) =~= y@);
    comes_before_at(&x, &y, 0)
}

/// Values by name, in the order of the names.
#[derive(Clone, Debug)]
pub struct Names<V> {
    entries: Vec<(String, V)>,
}

impl<V: Copy> Names<V> {
    /// How many names there are.
    pub closed spec fn spec_len(&self) -> nat {
        self.entries@.len()
    }

    /// The name at a place.
    pub closed spec fn name(&self, i: int) -> Seq<char> {
        self.entries@[i].0@
    }

    /// The value at a place.
    pub closed spec fn value(&self, i: int) -> V {
        self.entries@[i].1
    }

    /// The names ascend strictly.
    pub open spec fn wf(&self) -> bool {
        forall|i: int, j: int|
            0 <= i < j < self.spec_len() ==> before(#[trigger] self.name(i), #[trigger] self.name(j))
    }

    /// Whether there is this name.
    pub open spec fn has(&self, name: Seq<char>) -> bool {
        exists|i: int| 0 <= i < self.spec_len() && #[trigger] self.name(i) == name
    }

    /// Where a name stands, if it is there.
    pub open spec fn place(&self, name: Seq<char>) -> int {
        choose|i: int| 0 <= i < self.spec_len() && #[trigger] self.name(i) == name
    }

    /// The values by name.
    pub open spec fn map(&self) -> Map<Seq<char>, V> {
        Map::new(|n: Seq<char>| self.has(n), |n: Seq<char>| self.value(self.place(n)))
    }

    /// Every place holds the value of its name.
    pub proof fn lemma_places(&self)
        requires
            self.wf(),
        ensures
            forall|i: int|
                0 <= i < self.spec_len() ==> self.map().contains_key(#[trigger] self.name(i))
                    && self.map()[self.name(i)] == self.value(i) && self.place(self.name(i)) == i,
    {
        assert forall|i: int| 0 <= i < self.spec_len() implies self.map().contains_key(
            #[trigger] self.name(i),
        ) && self.map()[self.name(i)] == self.value(i) && self.place(self.name(i)) == i by {
            let j = self.place(self.name(i));
            assert(self.has(self.name(i)));
            lemma_irreflexive(self.name(i));
            if i < j {
                assert(before(self.name(i), self.name(j)));
            } else if j < i {
                assert(before(self.name(j), self.name(i)));
            }
        }
    }

    /// No names.
    pub fn new() -> (res: Self)
        ensures
            res.wf(),
            res.spec_len() == 0,
            res.map() == Map::<Seq<char>, V>::empty(),
    {
        let res = Names { entries: Vec::new() };
        assert(res.map() =~= Map::<Seq<char>, V>::empty());
        res
    }

    /// The value of a name.
    pub fn get(&self, name: &str) -> (res: Option<V>)
        requires
            self.wf(),
        ensures
            match res {
                Some(v) => self.map().contains_key(name@) && self.map()[name@] == v,
                None => !self.map().contains_key(name@),
            },
    {
        proof {
            self.lemma_places();
        }
        match self.index_of(name) {
            Some(i) => Some(self.value_at(i)),
            None => None,
        }
    }

    /// Give a name a value.
    pub fn put(&mut self, name: &str, v: V)
        requires
            old(self).wf(),
            old(self).spec_len() < usize::MAX,
        ensures
            final(self).wf(),
            final(self).map() == old(self).map().insert(name@, v),
            final(self).spec_len() == old(self).spec_len() + if old(self).map().contains_key(
                name@,
            ) {
                0int
            } else {
                1
            },
    {
        let ghost start = *self;
        proof {
            start.lemma_places();
        }
        match self.index_of(name) {
            Some(i) => {
                self.set_value(i, v);
                proof {
                    self.lemma_places();
                    assert(start.name(i as int) == name@);
                    assert forall|n: Seq<char>| #[trigger] self.map().contains_key(
                        n,
                    ) == start.map().insert(name@, v).contains_key(n) by {
                        if self.has(n) {
                            assert(start.name(self.place(n)) == n);
                        }
                        if start.has(n) {
                            assert(self.name(start.place(n)) == n);
                        }
                    }
                    assert forall|n: Seq<char>| #[trigger] self.map().contains_key(
                        n,
                    ) implies self.map()[n] == start.map().insert(name@, v)[n] by {
                        let p = self.place(n);
                        assert(start.name(p) == n && self.name(p) == n);
                    }
                    assert(self.map() =~= start.map().insert(name@, v));
                }
            },
            None => {
                let i: usize = self.add_name(name, v);
                proof {
                    self.lemma_places();
                    assert forall|n: Seq<char>| #[trigger] self.map().contains_key(
                        n,
                    ) == start.map().insert(name@, v).contains_key(n) by {
                        if self.has(n) {
                            let p = self.place(n);
                            if p < i {
                                assert(start.name(p) == n);
                            } else if p > i {
                                assert(start.name(p - 1) == n);
                            }
                        }
                        if start.has(n) {
                            let p = start.place(n);
                            if p < i {
                                assert(self.name(p) == n);
                            } else {
                                assert(self.name(p + 1) == n);
                            }
                        }
                        assert(self.name(i as int) == name@);
                    }
                    assert forall|n: Seq<char>| #[trigger] self.map().contains_key(
                        n,
                    ) implies self.map()[n] == start.map().insert(name@, v)[n] by {
                        let p = self.place(n);
                        if p < i {
                            assert(start.name(p) == n);
                        } else if p > i {
                            assert(start.name(p - 1) == n);
                        }
                    }
                    assert(self.map() =~= start.map().insert(name@, v));
                }
            },
        }
    }

    /// How many names there are.
    pub fn len(&self) -> (res: usize)
        ensures
            res == self.spec_len(),
    {
        self.entries.len()
    }

    /// The name at a place.
    pub fn name_at(&self, i: usize) -> (res: &String)
        requires
            i < self.spec_len(),
        ensures
            res@ == self.name(i as int),
    {
        &self.entries[i].0
    }

    /// The value at a place.
    pub fn value_at(&self, i: usize) -> (res: V)
        requires
            i < self.spec_len(),
        ensures
            res == self.value(i as int),
    {
        self.entries[i].1
    }

    /// Where a name stands.
    fn index_of(&self, name: &str) -> (res: Option<usize>)
        requires
            self.wf(),
        ensures
            match res {
                Some(i) => i < self.spec_len() && self.name(i as int) == name@ && forall|j: int|
                    0 <= j < self.spec_len() && #[trigger] self.name(j) == name@ ==> j == i,
                None => !self.has(name@),
            },
    {
        let mut i: usize = 0;
        while i < self.entries.len()
            invariant
                self.wf(),
                i <= self.spec_len(),
                forall|j: int| 0 <= j < i ==> #[trigger] self.name(j) != name@,
            decreases self.entries.len() - i,
        {
            if text::same(self.entries[i].0.as_str(), name) {
                assert(self.name(i as int) == name@);
                assert forall|j: int| 0 <= j < self.spec_len() && #[trigger] self.name(j)
                    == name@ implies j == i by {
                    if i < j {
                        assert(before(self.name(i as int), self.name(j)));
                        lemma_irreflexive(name@);
                    }
                }
                return Some(i);
            }
            i += 1;
        }
        None
    }

    /// Change the value at a place.
    fn set_value(&mut self, i: usize, v: V)
        requires
            old(self).wf(),
            i < old(self).spec_len(),
        ensures
            final(self).wf(),
            final(self).spec_len() == old(self).spec_len(),
            forall|j: int|
                0 <= j < old(self).spec_len() ==> #[trigger] final(self).name(j) == old(self).name(
                    j,
                ),
            forall|j: int|
                0 <= j < old(self).spec_len() ==> #[trigger] final(self).value(j) == if j == i {
                    v
                } else {
                    old(self).value(j)
                },
    {
        let name = self.entries[i].0.clone();
        let ghost start = *self;
        self.entries.set(i, (name, v));
        assert forall|a: int, b: int| 0 <= a < b < self.spec_len() implies before(
            #[trigger] self.name(a),
            #[trigger] self.name(b),
        ) by {
            assert(self.name(a) == start.name(a));
            assert(self.name(b) == start.name(b));
        }
    }

    /// Put in a name that is not there yet; returns where it stands.
    fn add_name(&mut self, name: &str, v: V) -> (res: usize)
        requires
            old(self).wf(),
            !old(self).has(name@),
            old(self).spec_len() < usize::MAX,
        ensures
            final(self).wf(),
            final(self).spec_len() == old(self).spec_len() + 1,
            res < final(self).spec_len(),
            final(self).name(res as int) == name@,
            final(self).value(res as int) == v,
            forall|j: int|
                0 <= j < res ==> #[trigger] final(self).name(j) == old(self).name(j) && final(
                    self).value(j) == old(self).value(j),
            forall|j: int|
                res < j < final(self).spec_len() ==> #[trigger] final(self).name(j) == old(
                    self,
                ).name(j - 1) && final(self).value(j) == old(self).value(j - 1),
    {
        let ghost start = *self;
        let mut i: usize = 0;
        while i < self.entries.len() && comes_before(self.entries[i].0.as_str(), name)
            invariant
                self.wf(),
                *self == start,
                i <= self.spec_len(),
                forall|j: int| 0 <= j < i ==> before(#[trigger] self.name(j), name@),
            decreases self.entries.len() - i,
        {
            i += 1;
        }
        proof {
            assert forall|j: int| i <= j < self.spec_len() implies before(
                name@,
                #[trigger] self.name(j),
            ) by {
                law_names_are_ordered(name@, self.name(i as int), self.name(j));
                assert(self.name(i as int) != name@);
                if i < j {
                    assert(before(self.name(i as int), self.name(j)));
                }
            }
        }
        self.entries.insert(i, (name.to_owned(), v));
        proof {
            assert forall|a: int, b: int| 0 <= a < b < self.spec_len() implies before(
                #[trigger] self.name(a),
                #[trigger] self.name(b),
            ) by {
                let x = if a < i {
                    a
                } else {
                    a - 1
                };
                let y = if b < i {
                    b
                } else {
                    b - 1
                };
                if a != i {
                    assert(self.name(a) == start.name(x));
                }
                if b != i {
                    assert(self.name(b) == start.name(y));
                }
            }
        }
        i
    }
}

/// How often a name is in a list.
pub open spec fn occurrences(s: Seq<String>, name: Seq<char>) -> nat
    decreases s.len(),
{
    if s.len() == 0 {
        0
    } else {
        occurrences(s.drop_last(), name) + if s.last()@ == name {
            1nat
        } else {
            0nat
        }
    }
}

/// The different names of a list in order, with how often each is there.
pub fn count_names(names: &Vec<String>) -> (res: Names<u64>)
    ensures
        res.wf(),
        forall|n: Seq<char>|
            #![trigger res.map().contains_key(n)]
            #![trigger occurrences(names@, n)]
            res.map().contains_key(n) <==> occurrences(names@, n) > 0,
        forall|n: Seq<char>|
            #[trigger] res.map().contains_key(n) ==> res.map()[n] == occurrences(names@, n),
{
    let total: usize = names.len();
    let mut out: Names<u64> = Names::new();
    let mut i: usize = 0;
    while i < total
        invariant
            i <= total,
            total == names@.len(),
            out.wf(),
            out.spec_len() <= i,
            forall|n: Seq<char>|
                #![trigger out.map().contains_key(n)]
                #![trigger occurrences(names@.take(i as int), n)]
                out.map().contains_key(n) <==> occurrences(names@.take(i as int), n) > 0,
            forall|n: Seq<char>|
                #[trigger] out.map().contains_key(n) ==> out.map()[n] == occurrences(
                    names@.take(i as int),
                    n,
                ) && out.map()[n] <= i,
        decreases total - i,
    {
        let ghost part = names@.take(i + 1);
        assert(part.drop_last() =~= names@.take(i as int));
        let ghost before = out.map();
        let name = names[i].as_str();
        let n: u64 = match out.get(name) {
            Some(n) => {
                assert(before.contains_key(name@));
                n + 1
            },
            None => {
                assert(!before.contains_key(name@));
                1
            },
        };
        out.put(name, n);
        proof {
            assert forall|x: Seq<char>|
                #![trigger out.map().contains_key(x)]
                #![trigger occurrences(part, x)]
                out.map().contains_key(x) <==> occurrences(part, x) > 0 by {
                assert(before.contains_key(x) <==> occurrences(names@.take(i as int), x) > 0);
            }
            assert forall|x: Seq<char>| #[trigger] out.map().contains_key(x) implies out.map()[x]
                == occurrences(part, x) && out.map()[x] <= i + 1 by {
                assert(before.contains_key(x) <==> occurrences(names@.take(i as int), x) > 0);
            }
        }
        i += 1;
    }
    assert(names@.take(i as int) =~= names@);
    out
}

/// The texts agree up to place `k`, where the first one ends or has the lesser
/// character.
pub open spec fn differs_at(a: Seq<char>, b: Seq<char>, k: int) -> bool {
    &&& 0 <= k <= a.len()
    &&& k < b.len()
    &&& forall|i: int| 0 <= i < k ==> #[trigger] a[i] == b[i]
    &&& k < a.len() ==> a[k] < b[k]
}

/// A name comes before another if it is a proper beginning of it or has the lesser
/// character at the first place where they differ.
pub proof fn law_names_are_ordered_by_the_first_difference(a: Seq<char>, b: Seq<char>)
    ensures
        before(a, b) <==> exists|k: int| #[trigger] differs_at(a, b, k),
    decreases a.len(),
{
    if b.len() == 0 {
    } else if a.len() == 0 {
        assert(differs_at(a, b, 0));
    } else if a[0] != b[0] {
        if a[0] < b[0] {
            assert(differs_at(a, b, 0));
        }
        if exists|k: int| #[trigger] differs_at(a, b, k) {
            let k = choose|k: int| #[trigger] differs_at(a, b, k);
            if k > 0 {
                assert(a[0] == b[0]);
            }
        }
    } else {
        let x = a.skip(1);
        let y = b.skip(1);
        law_names_are_ordered_by_the_first_difference(x, y);
        if before(x, y) {
            let k = choose|k: int| #[trigger] differs_at(x, y, k);
            assert forall|i: int| 0 <= i < k + 1 implies #[trigger] a[i] == b[i] by {
                if i > 0 {
                    assert(x[i - 1] == y[i - 1]);
                }
            }
            assert(differs_at(a, b, k + 1));
        }
        if exists|k: int| #[trigger] differs_at(a, b, k) {
            let k = choose|k: int| #[trigger] differs_at(a, b, k);
            assert(k > 0);
            assert forall|i: int| 0 <= i < k - 1 implies #[trigger] x[i] == y[i] by {
                assert(a[i + 1] == b[i + 1]);
            }
            assert(differs_at(x, y, k - 1));
        }
    }
}

/// A name occurs as often as it stands in the list.
pub proof fn law_occurrences_are_counted(s: Seq<String>, name: Seq<char>)
    ensures
        occurrences(s, name) == s.filter(|x: String| x@ == name).len(),
    decreases s.len(),
{
    reveal(Seq::filter);
    if s.len() > 0 {
        law_occurrences_are_counted(s.drop_last(), name);
    }
}

/// Names stand in order, each with the value that the map has under it.
pub proof fn law_names_stand_in_order<V: Copy>(n: Names<V>, i: int, j: int)
    requires
        n.wf(),
        0 <= i < j < n.spec_len(),
    ensures
        before(n.name(i), n.name(j)),
        n.map().contains_key(n.name(i)),
        n.map()[n.name(i)] == n.value(i),
{
    n.lemma_places();
}

} // verus!
