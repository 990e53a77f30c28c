use vstd::prelude::*;

verus! {

/// A table from names to values, kept in the order in which names first came
/// in. A name is looked up from the front, and the first entry under it counts.
pub struct Table<V> {
    entries: Vec<(String, V)>,
}

impl<V> View for Table<V> {
    type V = Map<Seq<char>, V>;

    closed spec fn view(&self) -> Map<Seq<char>, V> {
        Map::new(|k: Seq<char>| self.has(k), |k: Seq<char>| self.entries@[self.slot(k)].1)
    }
}

impl<V> Table<V> {
    spec fn first_at(&self, key: Seq<char>, i: int) -> bool {
        &&& 0 <= i < self.entries@.len()
        &&& self.entries@[i].0@ == key
        &&& forall|j: int| 0 <= j < i ==> self.entries@[j].0@ != key
    }

    spec fn has(&self, key: Seq<char>) -> bool {
        exists|i: int| self.first_at(key, i)
    }

    spec fn slot(&self, key: Seq<char>) -> int {
        choose|i: int| self.first_at(key, i)
    }

    proof fn lemma_first_is_slot(&self, key: Seq<char>, i: int)
        requires
            self.first_at(key, i),
        ensures
            self.has(key),
            self.slot(key) == i,
    {
        let s = self.slot(key);
        assert(self.first_at(key, s));
        if s < i {
            assert(self.entries@[s].0@ != key);
        }
        if i < s {
            assert(self.entries@[i].0@ != key);
        }
    }

    /// An empty table.
    pub fn new() -> (t: Self)
        ensures
            t@ == Map::<Seq<char>, V>::empty(),
    {
        let t = Table { entries: Vec::new() };
        assert(t@ =~= Map::<Seq<char>, V>::empty());
        t
    }

    fn find(&self, key: &String) -> (r: Option<usize>)
        ensures
            match r {
                Some(i) => self.first_at(key@, i as int),
                None => forall|j: int| 0 <= j < self.entries@.len() ==> self.entries@[j].0@ != key@,
            },
    {
        let mut i: usize = 0;
        while i < self.entries.len()
            invariant
                i <= self.entries@.len(),
                forall|j: int| 0 <= j < i ==> self.entries@[j].0@ != key@,
            decreases self.entries.len() - i,
        {
            if self.entries[i].0 == *key {
                return Some(i);
            }
            i += 1;
        }
        None
    }

    /// The value under `key`, if the table has one.
    pub fn get(&self, key: &String) -> (r: Option<&V>)
        ensures
            match r {
                Some(v) => self@.contains_key(key@) && *v == self@[key@],
                None => !self@.contains_key(key@),
            },
    {
        match self.find(key) {
            Some(i) => {
                proof {
                    self.lemma_first_is_slot(key@, i as int);
                }
                Some(&self.entries[i].1)
            },
            None => {
                assert(!self.has(key@)) by {
                    if self.has(key@) {
                        assert(self.first_at(key@, self.slot(key@)));
                    }
                }
                None
            },
        }
    }

    /// Puts `value` under `key`, in place of the value that was there, if any.
    pub fn insert(&mut self, key: String, value: V)
        ensures
            final(self)@ == old(self)@.insert(key@, value),
    {
        let ghost before = *self;
        let ghost at: int;
        match self.find(&key) {
            Some(i) => {
                self.entries.set(i, (key, value));
                proof {
                    at = i as int;
                }
            },
            None => {
                proof {
                    at = self.entries@.len() as int;
                }
                self.entries.push((key, value));
            },
        }
        proof {
            assert(forall|j: int|
                0 <= j < before.entries@.len() && j != at ==> self.entries@[j]
                    == before.entries@[j]);
            assert(forall|j: int|
                0 <= j < before.entries@.len() && j < at ==> before.entries@[j].0@ != key@);
            assert(self.first_at(key@, at));
            self.lemma_first_is_slot(key@, at);
            assert forall|k: Seq<char>| k != key@ && before.has(k) implies self.has(k)
                && self.slot(k) == before.slot(k) by {
                let s = before.slot(k);
                assert(before.first_at(k, s));
                assert(self.first_at(k, s));
                self.lemma_first_is_slot(k, s);
            }
            assert forall|k: Seq<char>| k != key@ && self.has(k) implies before.has(k) by {
                let s = self.slot(k);
                assert(self.first_at(k, s));
                assert(s != at);
                assert(self.entries@[s] == before.entries@[s]);
                assert forall|j: int| 0 <= j < s implies before.entries@[j].0@ != k by {
                    assert(self.entries@[j].0@ != k);
                }
                assert(before.first_at(k, s));
            }
            assert(self@ =~= before@.insert(key@, value));
        }
    }
}

} // verus!
