use vstd::prelude::*;
use crate::bytecode::tables::first_index;
use crate::bytecode::tables::lemma_first_index;
use crate::bytecode::tables::lemma_first_index_bounds;
use crate::text::str_eq;

verus! {

/// The address of an object on the heap.
pub type MemoryAddress = usize;

/// A mapping from names to addresses, as objects, types and modules hold
/// them. The order in which names were entered carries no meaning.
#[derive(Debug)]
pub struct NameMap {
    entries: Vec<(String, MemoryAddress)>,
}

impl NameMap {
    /// The names in the order of the entries.
    pub closed spec fn keys(&self) -> Seq<Seq<char>> {
        Seq::new(self.entries.len() as nat, |i: int| self.entries[i].0@)
    }

    /// The mapping.
    pub closed spec fn view(&self) -> Map<Seq<char>, MemoryAddress> {
        Map::new(
            |k: Seq<char>| self.keys().contains(k),
            |k: Seq<char>| self.entries[first_index(self.keys(), k)].1,
        )
    }

    /// Whether every address in the mapping is below `n`.
    pub open spec fn below(&self, n: int) -> bool {
        forall|k: Seq<char>| self@.contains_key(k) ==> #[trigger] self@[k] < n
    }

    /// The empty mapping.
    pub fn new() -> (r: NameMap)
        ensures
            r@ == Map::<Seq<char>, MemoryAddress>::empty(),
    {
        let r = NameMap { entries: Vec::new() };
        assert(r@ =~= Map::<Seq<char>, MemoryAddress>::empty());
        r
    }

    /// The position of `name` among the entries, if it has one.
    fn find(&self, name: &str) -> (r: Option<usize>)
        ensures
            match r {
                Some(i) => i < self.entries.len() && i == first_index(self.keys(), name@)
                    && self.keys().contains(name@),
                None => !self.keys().contains(name@),
            },
    {
        let mut i: usize = 0;
        while i < self.entries.len()
            invariant
                i <= self.entries.len(),
                forall|j: int| 0 <= j < i ==> self.keys()[j] != name@,
            decreases self.entries.len() - i,
        {
            if str_eq(self.entries[i].0.as_str(), name) {
                proof {
                    assert(self.keys()[i as int] == name@);
                    lemma_first_index(self.keys(), name@, i as int);
                }
                return Some(i);
            }
            i += 1;
        }
        None
    }

    /// The address entered under `name`, if there is one.
    pub fn get(&self, name: &str) -> (r: Option<MemoryAddress>)
        ensures
            r == if self@.contains_key(name@) {
                Some(self@[name@])
            } else {
                None
            },
    {
        match self.find(name) {
            Some(i) => Some(self.entries[i].1),
            None => None,
        }
    }

    /// Enters `value` under `name`, in place of what was entered under it.
    pub fn insert(&mut self, name: String, value: MemoryAddress)
        ensures
            final(self)@ == old(self)@.insert(name@, value),
    {
        let ghost before = *self;
        match self.find(name.as_str()) {
            Some(i) => {
                proof {
                    lemma_first_index_bounds(before.keys(), name@);
                }
                self.entries.set(i, (name, value));
                proof {
                    assert(self.keys() =~= before.keys());
                    assert forall|k: Seq<char>| self.keys().contains(k) implies #[trigger] self@[k]
                        == before@.insert(name@, value)[k] by {
                        lemma_first_index_bounds(self.keys(), k);
                    }
                    assert(self@ =~= before@.insert(name@, value));
                }
            },
            None => {
                self.entries.push((name, value));
                proof {
                    assert(self.keys() =~= before.keys().push(name@));
                    assert forall|k: Seq<char>| self.keys().contains(k) implies #[trigger] self@[k]
                        == before@.insert(name@, value)[k] && before@.insert(
                        name@,
                        value,
                    ).contains_key(k) by {
                        lemma_first_index_bounds(self.keys(), k);
                        lemma_first_index_bounds(before.keys(), k);
                        let i = first_index(self.keys(), k);
                        if k == name@ {
                            lemma_first_index(self.keys(), k, before.keys().len() as int);
                        } else {
                            assert(before.keys().contains(k)) by {
                                assert(self.keys()[i] == k);
                                assert(before.keys()[i] == k);
                            }
                            let j = first_index(before.keys(), k);
                            assert forall|m: int| 0 <= m < j implies self.keys()[m] != k by {
                                assert(self.keys()[m] == before.keys()[m]);
                            }
                            assert(self.keys()[j] == before.keys()[j]);
                            lemma_first_index(self.keys(), k, j);
                        }
                    }
                    assert forall|k: Seq<char>|
                        before@.insert(name@, value).contains_key(k) implies self.keys().contains(
                        k,
                    ) by {
                        if k == name@ {
                            assert(self.keys()[before.keys().len() as int] == k);
                        } else {
                            let j = choose|j: int|
                                0 <= j < before.keys().len() && before.keys()[j] == k;
                            assert(self.keys()[j] == k);
                        }
                    }
                    assert(self@ =~= before@.insert(name@, value));
                }
            },
        }
    }

    /// A copy of the mapping.
    pub fn clone(&self) -> (r: NameMap)
        ensures
            r@ == self@,
    {
        let mut entries: Vec<(String, MemoryAddress)> = Vec::new();
        let mut i: usize = 0;
        while i < self.entries.len()
            invariant
                i <= self.entries.len(),
                entries.len() == i,
                forall|j: int|
                    0 <= j < i ==> entries[j].0@ == self.entries[j].0@ && entries[j].1
                        == self.entries[j].1,
            decreases self.entries.len() - i,
        {
            entries.push((self.entries[i].0.clone(), self.entries[i].1));
            i += 1;
        }
        let r = NameMap { entries };
        proof {
            assert(r.keys() =~= self.keys());
            assert forall|k: Seq<char>| self.keys().contains(k) implies #[trigger] r@[k]
                == self@[k] by {
                lemma_first_index_bounds(self.keys(), k);
            }
            assert(r@ =~= self@);
        }
        r
    }
}

} // verus!
