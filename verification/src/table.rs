//! A small map from strings to values, kept as a list without repeated keys.

use vstd::prelude::*;

verus! {

/// A map from strings to values.
///
/// Entries are kept in a list in which no key occurs twice, and every
/// operation keeps it so.
pub struct Table<V> {
    entries: Vec<(String, V)>,
}

impl<V> View for Table<V> {
    type V = Map<Seq<char>, V>;

    closed spec fn view(&self) -> Map<Seq<char>, V> {
        Map::new(|k: Seq<char>| self.has(k), |k: Seq<char>| self.entries@[self.slot(k)].1)
    }
}

impl<V> Table<V> {
    /// Whether some entry has the key `k`.
    spec fn has(&self, k: Seq<char>) -> bool {
        exists|i: int| 0 <= i < self.entries@.len() && (#[trigger] self.entries@[i]).0@ == k
    }

    /// The place of the key `k`, where it occurs.
    spec fn slot(&self, k: Seq<char>) -> int {
        choose|i: int| 0 <= i < self.entries@.len() && (#[trigger] self.entries@[i]).0@ == k
    }

    /// No key occurs twice.
    #[verifier::type_invariant]
    spec fn distinct(&self) -> bool {
        forall|i: int, j: int|
            0 <= i < j < self.entries@.len() ==> (#[trigger] self.entries@[i]).0@ != (
            #[trigger] self.entries@[j]).0@
    }

    /// An empty map.
    pub fn new() -> (table: Self)
        ensures
            table@ == Map::<Seq<char>, V>::empty(),
    {
        Table { entries: Vec::new() }
    }

    /// Where the key stands in the list, if it does.
    fn position(&self, key: &String) -> (found: Option<usize>)
        ensures
            found is Some <==> self.has(key@),
            found matches Some(i) ==> i < self.entries@.len() && self.entries@[i as int].0@
                == key@,
    {
        let mut i: usize = 0;
        while i < self.entries.len()
            invariant
                i <= self.entries@.len(),
                forall|j: int| 0 <= j < i ==> (#[trigger] self.entries@[j]).0@ != key@,
            decreases self.entries@.len() - i,
        {
            if self.entries[i].0 == *key {
                return Some(i);
            }
            i = i + 1;
        }
        None
    }

    /// The value that the key stands for.
    pub fn get(&self, key: &String) -> (value: Option<&V>)
        ensures
            value is Some <==> self@.contains_key(key@),
            value matches Some(v) ==> *v == self@[key@],
    {
        proof {
            use_type_invariant(self);
        }
        match self.position(key) {
            Some(i) => Some(&self.entries[i].1),
            None => None,
        }
    }

    /// Sets what the key stands for, in place of what it stood for before.
    pub fn insert(&mut self, key: String, value: V)
        ensures
            final(self)@ == old(self)@.insert(key@, value),
    {
        proof {
            use_type_invariant(&*self);
        }
        let ghost before = *self;
        let found = self.position(&key);
        let mut entries: Vec<(String, V)> = Vec::new();
        std::mem::swap(&mut entries, &mut self.entries);
        match found {
            Some(i) => {
                entries.remove(i);
                entries.insert(i, (key, value));
            },
            None => {
                entries.push((key, value));
            },
        }
        self.entries = entries;
        proof {
            self.lemma_reads();
            before.lemma_reads();
            let at: int = match found {
                Some(i) => i as int,
                None => before.entries@.len() as int,
            };
            assert(self.entries@[at].0@ == key@);
            assert forall|k: Seq<char>| k != key@ implies (self.has(k) <==> before.has(k)) by {
                if before.has(k) {
                    let i = before.slot(k);
                    assert(self.entries@[i].0@ == k);
                }
            }
            assert(self@ =~= before@.insert(key@, value));
        }
    }

    /// Takes the key out of the map, and gives back what it stood for.
    pub fn remove(&mut self, key: &String) -> (value: Option<V>)
        ensures
            final(self)@ == old(self)@.remove(key@),
            value is Some <==> old(self)@.contains_key(key@),
            value matches Some(v) ==> v == old(self)@[key@],
    {
        proof {
            use_type_invariant(&*self);
        }
        let ghost before = *self;
        let found = self.position(key);
        let mut entries: Vec<(String, V)> = Vec::new();
        std::mem::swap(&mut entries, &mut self.entries);
        let value = match found {
            Some(i) => Some(entries.remove(i).1),
            None => None,
        };
        self.entries = entries;
        proof {
            self.lemma_reads();
            before.lemma_reads();
            assert forall|k: Seq<char>| self.has(k) <==> (before.has(k) && k != key@) by {
                if before.has(k) && k != key@ {
                    let i = before.slot(k);
                    match found {
                        Some(at) => {
                            if i < at {
                                assert(self.entries@[i].0@ == k);
                            } else {
                                assert(self.entries@[i - 1].0@ == k);
                            }
                        },
                        None => {
                            assert(self.entries@[i].0@ == k);
                        },
                    }
                }
            }
            assert(self@ =~= before@.remove(key@));
        }
        value
    }

    /// Reading an entry of the list is reading the map at the entry's key.
    proof fn lemma_reads(&self)
        requires
            self.distinct(),
        ensures
            forall|i: int|
                0 <= i < self.entries@.len() ==> self@.contains_key(
                    (#[trigger] self.entries@[i]).0@,
                ) && self@[self.entries@[i].0@] == self.entries@[i].1,
    {
        assert forall|i: int| 0 <= i < self.entries@.len() implies self@.contains_key(
            (#[trigger] self.entries@[i]).0@,
        ) && self@[self.entries@[i].0@] == self.entries@[i].1 by {
            let k = self.entries@[i].0@;
            let j = self.slot(k);
            assert(self.entries@[j].0@ == k);
        }
    }
}

} // verus!
