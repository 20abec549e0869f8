//! A small name-keyed table: stock by item name, relations by sect or
//! disciple id, research by art id. Each name occurs at most once.
use vstd::prelude::*;
use crate::text::text_eq;

verus! {

/// Entries keyed by name, in the order in which the names were first added.
#[derive(Debug)]
pub struct Ledger<V> {
    entries: Vec<(String, V)>,
}

impl<V> Ledger<V> {
    /// No name occurs twice.
    #[verifier::type_invariant]
    spec fn names_distinct(self) -> bool {
        forall|i: int, j: int|
            0 <= i < j < self.entries@.len() ==> (#[trigger] self.entries@[i]).0@
                != (#[trigger] self.entries@[j]).0@
    }

    /// The names in the order in which they were first added.
    pub closed spec fn names(self) -> Seq<Seq<char>> {
        self.entries@.map_values(|e: (String, V)| e.0@)
    }

    /// Whether `name` has an entry.
    pub closed spec fn has(self, name: Seq<char>) -> bool {
        exists|i: int| 0 <= i < self.entries@.len() && (#[trigger] self.entries@[i]).0@ == name
    }

    /// The value stored under `name` (meaningful when `has(name)`).
    pub closed spec fn at(self, name: Seq<char>) -> V {
        self.entries@[choose|i: int|
            0 <= i < self.entries@.len() && (#[trigger] self.entries@[i]).0@ == name].1
    }

    /// Number of entries.
    pub closed spec fn size(self) -> nat {
        self.entries@.len()
    }

    /// The table as a map from names to values.
    pub open spec fn as_map(self) -> Map<Seq<char>, V> {
        Map::new(|k: Seq<char>| self.has(k), |k: Seq<char>| self.at(k))
    }

    /// The stored value, or `None` when the name has no entry.
    pub open spec fn lookup(self, name: Seq<char>) -> Option<V> {
        if self.has(name) {
            Some(self.at(name))
        } else {
            None
        }
    }

    proof fn lemma_at_index(self, i: int)
        requires
            0 <= i < self.entries@.len(),
            self.names_distinct(),
        ensures
            self.has(self.entries@[i].0@),
            self.at(self.entries@[i].0@) == self.entries@[i].1,
    {
        let k = self.entries@[i].0@;
        assert(self.has(k));
        let j = choose|j: int| 0 <= j < self.entries@.len() && (#[trigger] self.entries@[j]).0@ == k;
        if j != i {
            if j < i {
                assert(self.entries@[j].0@ != self.entries@[i].0@);
            } else {
                assert(self.entries@[i].0@ != self.entries@[j].0@);
            }
        }
    }

    /// Every one of `names()` is held.
    pub proof fn lemma_named_has(self, j: int)
        requires
            0 <= j < self.size(),
        ensures
            self.has(self.names()[j]),
    {
        assert(self.entries@[j].0@ == self.names()[j]);
    }

    /// Every name held is one of `names()`.
    pub proof fn lemma_has_named(self, k: Seq<char>)
        requires
            self.has(k),
        ensures
            exists|j: int| 0 <= j < self.size() && #[trigger] self.names()[j] == k,
    {
        let i = choose|i: int| 0 <= i < self.entries@.len() && (#[trigger] self.entries@[i]).0@ == k;
        assert(self.names()[i] == k);
    }

    /// A table of no entries holds no name.
    pub proof fn lemma_empty_has_none(self)
        requires
            self.size() == 0,
        ensures
            forall|k: Seq<char>| !self.has(k),
    {
    }

    /// An empty table.
    pub fn new() -> (r: Ledger<V>)
        ensures
            forall|k: Seq<char>| !r.has(k),
            r.size() == 0,
    {
        Ledger { entries: Vec::new() }
    }

    /// Position of the entry for `name`, if any.
    fn position(&self, name: &str) -> (r: Option<usize>)
        ensures
            match r {
                Some(i) => i < self.entries@.len() && self.entries@[i as int].0@ == name@,
                None => !self.has(name@),
            },
    {
        let mut i: usize = 0;
        while i < self.entries.len()
            invariant
                i <= self.entries@.len(),
                forall|j: int| 0 <= j < i ==> (#[trigger] self.entries@[j]).0@ != name@,
            decreases self.entries@.len() - i,
        {
            if text_eq(self.entries[i].0.as_str(), name) {
                return Some(i);
            }
            i = i + 1;
        }
        None
    }

    /// Whether `name` has an entry.
    pub fn contains_key(&self, name: &str) -> (r: bool)
        ensures
            r == self.has(name@),
    {
        self.position(name).is_some()
    }

    /// Number of entries.
    pub fn len(&self) -> (r: usize)
        ensures
            r == self.size(),
    {
        self.entries.len()
    }

    /// Sets the value under `name`; a new name is appended after the others.
    pub fn insert(&mut self, name: &str, value: V)
        ensures
            final(self).has(name@),
            final(self).at(name@) == value,
            forall|k: Seq<char>| k != name@ ==> (final(self).has(k) == old(self).has(k)),
            forall|k: Seq<char>|
                k != name@ && #[trigger] old(self).has(k) ==> final(self).at(k) == old(self).at(k),
            final(self).size() == old(self).size() + (if old(self).has(name@) { 0int } else { 1int }),
    {
        proof {
            use_type_invariant(&*self);
        }
        let ghost old_entries = self.entries@;
        match self.position(name) {
            Some(i) => {
                let mut entries: Vec<(String, V)> = Vec::new();
                std::mem::swap(&mut entries, &mut self.entries);
                let key = entries[i].0.clone();
                entries.set(i, (key, value));
                proof {
                    assert forall|a: int, b: int|
                        0 <= a < b < entries@.len() implies (#[trigger] entries@[a]).0@
                        != (#[trigger] entries@[b]).0@ by {
                        assert(old_entries[a].0@ != old_entries[b].0@);
                    }
                }
                self.entries = entries;
            },
            None => {
                let mut entries: Vec<(String, V)> = Vec::new();
                std::mem::swap(&mut entries, &mut self.entries);
                entries.push((String::from_str(name), value));
                proof {
                    assert forall|a: int, b: int|
                        0 <= a < b < entries@.len() implies (#[trigger] entries@[a]).0@
                        != (#[trigger] entries@[b]).0@ by {
                        if b == old_entries.len() {
                            assert(old_entries[a] == entries@[a]);
                        } else {
                            assert(old_entries[a].0@ != old_entries[b].0@);
                        }
                    }
                }
                self.entries = entries;
            },
        }
        proof {
            let n = self.entries@.len();
            assert forall|k: Seq<char>| k != name@ implies (self.has(k) == old(self).has(k)) by {
                if self.has(k) {
                    let j = choose|j: int| 0 <= j < n && (#[trigger] self.entries@[j]).0@ == k;
                    assert(old_entries[j] == self.entries@[j] || self.entries@[j].0@ == name@);
                    assert(old_entries[j].0@ == k);
                    assert(old(self).entries@[j].0@ == k);
                }
                if old(self).has(k) {
                    let j = choose|j: int|
                        0 <= j < old_entries.len() && (#[trigger] old(self).entries@[j]).0@ == k;
                    assert(self.entries@[j].0@ == k);
                }
            }
            assert forall|k: Seq<char>|
                k != name@ && #[trigger] old(self).has(k) implies self.at(k) == old(self).at(k) by {
                let j = choose|j: int|
                    0 <= j < old_entries.len() && (#[trigger] old(self).entries@[j]).0@ == k;
                old(self).lemma_at_index(j);
                assert(self.entries@[j] == old_entries[j]);
                self.lemma_at_index(j);
            }
            let p = choose|j: int| 0 <= j < n && (#[trigger] self.entries@[j]).0@ == name@;
            let q = if old(self).has(name@) {
                choose|j: int| 0 <= j < old_entries.len() && (#[trigger] old(self).entries@[j]).0@ == name@
            } else {
                n - 1
            };
            assert(self.entries@[q].0@ == name@);
            assert(self.entries@[q].1 == value);
            self.lemma_at_index(q);
        }
    }

    /// Removes the entry for `name`, returning its value.
    pub fn remove(&mut self, name: &str) -> (r: Option<V>)
        ensures
            r == old(self).lookup(name@),
            !final(self).has(name@),
            forall|k: Seq<char>| k != name@ ==> (final(self).has(k) == old(self).has(k)),
            forall|k: Seq<char>|
                k != name@ && #[trigger] old(self).has(k) ==> final(self).at(k) == old(self).at(k),
    {
        proof {
            use_type_invariant(&*self);
        }
        let ghost old_entries = self.entries@;
        match self.position(name) {
            None => None,
            Some(i) => {
                proof {
                    old(self).lemma_at_index(i as int);
                }
                let mut entries: Vec<(String, V)> = Vec::new();
                std::mem::swap(&mut entries, &mut self.entries);
                let (_, v) = entries.remove(i);
                proof {
                    let n = entries@.len();
                    assert forall|a: int, b: int|
                        0 <= a < b < n implies (#[trigger] entries@[a]).0@
                        != (#[trigger] entries@[b]).0@ by {
                        let oa = if a < i { a } else { a + 1 };
                        let ob = if b < i { b } else { b + 1 };
                        assert(entries@[a] == old_entries[oa]);
                        assert(entries@[b] == old_entries[ob]);
                        assert(old_entries[oa].0@ != old_entries[ob].0@);
                    }
                }
                self.entries = entries;
                proof {
                    let n = self.entries@.len();
                    assert forall|k: Seq<char>| k != name@ implies (self.has(k) == old(self).has(k)) by {
                        if self.has(k) {
                            let j = choose|j: int| 0 <= j < n && (#[trigger] self.entries@[j]).0@ == k;
                            let oj = if j < i { j } else { j + 1 };
                            assert(old_entries[oj] == self.entries@[j]);
                            assert(old(self).entries@[oj].0@ == k);
                        }
                        if old(self).has(k) {
                            let j = choose|j: int|
                                0 <= j < old_entries.len() && (#[trigger] old(self).entries@[j]).0@ == k;
                            assert(j != i);
                            let nj = if j < i { j } else { j - 1 };
                            assert(self.entries@[nj] == old_entries[j]);
                            assert(self.entries@[nj].0@ == k);
                        }
                    }
                    assert forall|k: Seq<char>|
                        k != name@ && #[trigger] old(self).has(k) implies self.at(k) == old(self).at(k) by {
                        let j = choose|j: int|
                            0 <= j < old_entries.len() && (#[trigger] old(self).entries@[j]).0@ == k;
                        old(self).lemma_at_index(j);
                        let nj = if j < i { j } else { j - 1 };
                        assert(self.entries@[nj] == old_entries[j]);
                        self.lemma_at_index(nj);
                    }
                    if self.has(name@) {
                        let j = choose|j: int| 0 <= j < n && (#[trigger] self.entries@[j]).0@ == name@;
                        let oj = if j < i { j } else { j + 1 };
                        assert(old_entries[oj] == self.entries@[j]);
                        assert(old_entries[i as int].0@ == name@);
                        if oj < i {
                            assert(old_entries[oj].0@ != old_entries[i as int].0@);
                        } else {
                            assert(old_entries[i as int].0@ != old_entries[oj].0@);
                        }
                    }
                }
                Some(v)
            },
        }
    }
}

impl<V: Copy> Ledger<V> {
    /// The value stored under `name`, if any.
    pub fn get(&self, name: &str) -> (r: Option<V>)
        ensures
            r == self.lookup(name@),
    {
        match self.position(name) {
            Some(i) => {
                proof {
                    use_type_invariant(self);
                    self.lemma_at_index(i as int);
                }
                Some(self.entries[i].1)
            },
            None => None,
        }
    }

    /// The value at position `i` in insertion order, with its name.
    pub fn entry_at(&self, i: usize) -> (r: (&str, V))
        requires
            i < self.size(),
        ensures
            r.0@ == self.names()[i as int],
            self.has(r.0@),
            self.at(r.0@) == r.1,
    {
        proof {
            use_type_invariant(self);
            self.lemma_at_index(i as int);
        }
        (self.entries[i].0.as_str(), self.entries[i].1)
    }
}

impl Ledger<i32> {
    /// The stored amount, or zero when the name has no entry.
    pub open spec fn amount(self, name: Seq<char>) -> int {
        if self.has(name) {
            self.at(name) as int
        } else {
            0
        }
    }

    /// The stored amount, or zero when the name has no entry.
    pub fn amount_of(&self, name: &str) -> (r: i32)
        ensures
            r == self.amount(name@),
    {
        match self.get(name) {
            Some(v) => v,
            None => 0,
        }
    }

    /// Adds `delta` to the amount under `name`, creating the entry at zero first.
    pub fn add(&mut self, name: &str, delta: i32)
        requires
            i32::MIN <= old(self).amount(name@) + delta <= i32::MAX,
        ensures
            final(self).has(name@),
            final(self).amount(name@) == old(self).amount(name@) + delta,
            forall|k: Seq<char>| k != name@ ==> (final(self).has(k) == old(self).has(k)),
            forall|k: Seq<char>|
                k != name@ && #[trigger] old(self).has(k) ==> final(self).at(k) == old(self).at(k),
    {
        let current = self.amount_of(name);
        self.insert(name, current + delta);
    }

    /// Raises every amount by `gain`, but not above `cap`.
    pub fn raise_all(&mut self, gain: i32, cap: i32)
        requires
            gain >= 0,
        ensures
            forall|k: Seq<char>| final(self).has(k) == old(self).has(k),
            forall|k: Seq<char>| #[trigger] old(self).has(k) ==> final(self).at(k) == (if old(self).at(k) + gain > cap {
                cap as int
            } else {
                old(self).at(k) + gain
            }),
    {
        proof {
            use_type_invariant(&*self);
        }
        let ghost before = self.entries@;
        let mut entries: Vec<(String, i32)> = Vec::new();
        let mut i: usize = 0;
        while i < self.entries.len()
            invariant
                self.entries@ == before,
                i <= before.len(),
                entries@.len() == i,
                forall|j: int| 0 <= j < i ==> (#[trigger] entries@[j]).0@ == before[j].0@ && entries@[j].1 == (if before[j].1 + gain > cap {
                    cap as int
                } else {
                    before[j].1 + gain
                }),
                gain >= 0,
            decreases before.len() - i,
        {
            let v: i64 = self.entries[i].1 as i64 + gain as i64;
            let nv: i32 = if v > cap as i64 { cap } else { v as i32 };
            entries.push((self.entries[i].0.clone(), nv));
            i = i + 1;
        }
        let ghost old_ledger = *self;
        proof {
            assert forall|a: int, b: int|
                0 <= a < b < entries@.len() implies (#[trigger] entries@[a]).0@ != (#[trigger] entries@[b]).0@ by {
                assert(before[a].0@ != before[b].0@);
            }
        }
        self.entries = entries;
        proof {
            assert forall|k: Seq<char>| self.has(k) == old_ledger.has(k) by {
                if self.has(k) {
                    let j = choose|j: int| 0 <= j < self.entries@.len() && (#[trigger] self.entries@[j]).0@ == k;
                    assert(before[j].0@ == k);
                }
                if old_ledger.has(k) {
                    let j = choose|j: int| 0 <= j < before.len() && (#[trigger] before[j]).0@ == k;
                    assert(self.entries@[j].0@ == k);
                }
            }
            assert forall|k: Seq<char>| #[trigger] old_ledger.has(k) implies self.at(k) == (if old_ledger.at(k) + gain > cap {
                cap as int
            } else {
                old_ledger.at(k) + gain
            }) by {
                let j = choose|j: int| 0 <= j < before.len() && (#[trigger] before[j]).0@ == k;
                old_ledger.lemma_at_index(j);
                assert(self.entries@[j].0@ == k);
                self.lemma_at_index(j);
            }
        }
    }
}

impl<V: Copy> Clone for Ledger<V> {
    fn clone(&self) -> (r: Self)
        ensures
            forall|k: Seq<char>| r.has(k) == self.has(k),
            forall|k: Seq<char>| #[trigger] r.has(k) ==> r.at(k) == self.at(k),
    {
        proof {
            use_type_invariant(self);
        }
        let mut entries: Vec<(String, V)> = Vec::new();
        let mut i: usize = 0;
        while i < self.entries.len()
            invariant
                i <= self.entries@.len(),
                entries@.len() == i,
                forall|j: int| 0 <= j < i ==> (#[trigger] entries@[j]).0@ == self.entries@[j].0@
                    && entries@[j].1 == self.entries@[j].1,
            decreases self.entries@.len() - i,
        {
            let e = &self.entries[i];
            entries.push((e.0.clone(), e.1));
            i = i + 1;
        }
        let r = Ledger { entries };
        proof {
            assert forall|a: int, b: int|
                0 <= a < b < r.entries@.len() implies (#[trigger] r.entries@[a]).0@
                != (#[trigger] r.entries@[b]).0@ by {
                assert(self.entries@[a].0@ != self.entries@[b].0@);
            }
        }
        proof {
            assert forall|k: Seq<char>| r.has(k) == self.has(k) by {
                if r.has(k) {
                    let j = choose|j: int| 0 <= j < r.entries@.len() && (#[trigger] r.entries@[j]).0@ == k;
                    assert(self.entries@[j].0@ == k);
                }
                if self.has(k) {
                    let j = choose|j: int| 0 <= j < self.entries@.len() && (#[trigger] self.entries@[j]).0@ == k;
                    assert(r.entries@[j].0@ == k);
                }
            }
            assert forall|k: Seq<char>| #[trigger] r.has(k) implies r.at(k) == self.at(k) by {
                let j = choose|j: int| 0 <= j < r.entries@.len() && (#[trigger] r.entries@[j]).0@ == k;
                r.lemma_at_index(j);
                self.lemma_at_index(j);
            }
        }
        r
    }
}

} // verus!
