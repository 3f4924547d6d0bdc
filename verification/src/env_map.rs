//! The variables of one environment file: unique names, each with its raw value.
//!
//! An `EnvMap` keeps its entries in ascending order of their names, so that two maps
//! with the same content hold the same entries in the same places, and whatever lists
//! them lists them in lexicographic order.

use vstd::prelude::*;
use crate::listing::{
    ascending, lemma_insert_at_slot, lemma_listing, lemma_map_of_entry, lemma_map_of_len,
    lemma_slot_decides, lemma_take_step, lemma_update_at, listing, map_of, slot_of,
};
use crate::order::{key_less, lemma_key_less_asymmetric, lemma_key_less_transitive, lemma_rank_of, rank, Rank};

verus! {

/// One name with its raw value.
#[derive(Clone, Debug, PartialEq, Eq)]
pub struct Entry {
    pub key: String,
    pub value: String,
}

impl View for Entry {
    type V = (Seq<char>, Seq<char>);

    open spec fn view(&self) -> (Seq<char>, Seq<char>) {
        (self.key@, self.value@)
    }
}

/// The pairs that a sequence of entries stands for, in the same order.
pub open spec fn pairs_of(entries: Seq<Entry>) -> Seq<(Seq<char>, Seq<char>)> {
    Seq::new(entries.len(), |i: int| entries[i]@)
}

/// A mapping from variable name to raw value.
#[derive(Debug)]
pub struct EnvMap {
    entries: Vec<Entry>,
}

impl View for EnvMap {
    type V = Map<Seq<char>, Seq<char>>;

    closed spec fn view(&self) -> Map<Seq<char>, Seq<char>> {
        map_of(pairs_of(self.entries@))
    }
}

impl EnvMap {
    #[verifier::type_invariant]
    spec fn ordered(&self) -> bool {
        ascending(pairs_of(self.entries@))
    }

    /// The entries as name and value pairs, in the order in which they are kept.
    spec fn pairs(&self) -> Seq<(Seq<char>, Seq<char>)> {
        pairs_of(self.entries@)
    }

    /// The map without any variable.
    pub fn new() -> (r: EnvMap)
        ensures
            r@ == Map::<Seq<char>, Seq<char>>::empty(),
    {
        let r = EnvMap { entries: Vec::new() };
        assert(r@ =~= Map::<Seq<char>, Seq<char>>::empty());
        r
    }

    /// The number of variables.
    pub fn len(&self) -> (r: usize)
        ensures
            r == self@.len(),
            self@.dom().finite(),
    {
        proof {
            use_type_invariant(self);
            lemma_map_of_len(self.pairs());
        }
        self.entries.len()
    }

    /// Whether the map holds no variable at all.
    pub fn is_empty(&self) -> (r: bool)
        ensures
            r == (self@ == Map::<Seq<char>, Seq<char>>::empty()),
            r == (self@.len() == 0),
    {
        proof {
            use_type_invariant(self);
            lemma_map_of_len(self.pairs());
            if self.pairs().len() == 0 {
                assert(self@ =~= Map::<Seq<char>, Seq<char>>::empty());
            }
        }
        self.entries.len() == 0
    }

    /// Finds by bisection the slot of `key` among the entries.
    fn locate(&self, key: &str) -> (r: (usize, bool))
        ensures
            slot_of(self.pairs(), key@, r.0 as int),
            r.1 <==> (r.0 < self.pairs().len() && self.pairs()[r.0 as int].0 == key@),
    {
        proof {
            use_type_invariant(self);
        }
        let ghost pairs = self.pairs();
        let mut low: usize = 0;
        let mut high: usize = self.entries.len();
        while low < high
            invariant
                pairs == pairs_of(self.entries@),
                ascending(pairs),
                low <= high <= self.entries.len(),
                forall|i: int| 0 <= i < low ==> key_less(#[trigger] pairs[i].0, key@),
                forall|i: int| high <= i < pairs.len() ==> key_less(key@, #[trigger] pairs[i].0),
            decreases high - low,
        {
            let middle: usize = low + (high - low) / 2;
            let found = rank(self.entries[middle].key.as_str(), key);
            proof {
                lemma_rank_of(pairs[middle as int].0, key@);
            }
            match found {
                Rank::Before => {
                    proof {
                        assert forall|i: int| 0 <= i < middle + 1 implies key_less(
                            #[trigger] pairs[i].0,
                            key@,
                        ) by {
                            if i < middle {
                                lemma_key_less_transitive(pairs[i].0, pairs[middle as int].0, key@);
                            }
                        }
                    }
                    low = middle + 1;
                },
                Rank::Same => {
                    return (middle, true);
                },
                Rank::After => {
                    proof {
                        assert forall|i: int| middle <= i < pairs.len() implies key_less(
                            key@,
                            #[trigger] pairs[i].0,
                        ) by {
                            if middle < i {
                                lemma_key_less_transitive(key@, pairs[middle as int].0, pairs[i].0);
                            }
                        }
                    }
                    high = middle;
                },
            }
        }
        proof {
            if low < pairs.len() {
                lemma_key_less_asymmetric(key@, pairs[low as int].0);
            }
        }
        (low, false)
    }

    /// Whether the map holds the variable `key`.
    pub fn contains_key(&self, key: &str) -> (r: bool)
        ensures
            r == self@.contains_key(key@),
    {
        proof {
            use_type_invariant(self);
        }
        let (at, found) = self.locate(key);
        proof {
            lemma_slot_decides(self.pairs(), key@, at as int);
        }
        found
    }

    /// The value of the variable `key`, if the map holds it.
    pub fn get(&self, key: &str) -> (r: Option<&String>)
        ensures
            match r {
                Some(value) => self@.contains_key(key@) && value@ == self@[key@],
                None => !self@.contains_key(key@),
            },
    {
        proof {
            use_type_invariant(self);
        }
        let (at, found) = self.locate(key);
        proof {
            lemma_slot_decides(self.pairs(), key@, at as int);
        }
        if found {
            Some(&self.entries[at].value)
        } else {
            None
        }
    }

    /// Sets the variable `key` to `value`, whether or not the map held it before:
    /// the value set last is the one that stays.
    pub fn insert(&mut self, key: String, value: String)
        ensures
            final(self)@ == old(self)@.insert(key@, value@),
    {
        proof {
            use_type_invariant(&*self);
        }
        let ghost before = self.pairs();
        let (at, found) = self.locate(key.as_str());
        proof {
            lemma_slot_decides(before, key@, at as int);
        }
        let mut entries: Vec<Entry> = Vec::new();
        core::mem::swap(&mut self.entries, &mut entries);
        if found {
            proof {
                lemma_update_at(before, at as int, value@);
                assert(before.update(at as int, (key@, value@)) =~= pairs_of(
                    entries@.update(at as int, Entry { key, value }),
                ));
            }
            entries.set(at, Entry { key, value });
        } else {
            proof {
                lemma_insert_at_slot(before, key@, value@, at as int);
                assert(before.insert(at as int, (key@, value@)) =~= pairs_of(
                    entries@.insert(at as int, Entry { key, value }),
                ));
            }
            entries.insert(at, Entry { key, value });
        }
        self.entries = entries;
    }

    /// The variables of this map whose names `other` does not hold, each with the
    /// value it has here.
    pub fn without_keys_of(&self, other: &EnvMap) -> (r: EnvMap)
        ensures
            r@ == self@.remove_keys(other@.dom()),
    {
        proof {
            use_type_invariant(self);
        }
        let ghost pairs = self.pairs();
        let mut kept: Vec<Entry> = Vec::new();
        let mut i: usize = 0;
        proof {
            assert(map_of(pairs_of(kept@)) =~= map_of(pairs.take(0)).remove_keys(other@.dom()));
        }
        while i < self.entries.len()
            invariant
                pairs == pairs_of(self.entries@),
                ascending(pairs),
                i <= self.entries.len(),
                ascending(pairs_of(kept@)),
                map_of(pairs_of(kept@)) == map_of(pairs.take(i as int)).remove_keys(other@.dom()),
            decreases self.entries.len() - i,
        {
            let entry = &self.entries[i];
            proof {
                lemma_take_step(pairs, i as int);
            }
            if !other.contains_key(entry.key.as_str()) {
                let copy = Entry { key: entry.key.clone(), value: entry.value.clone() };
                proof {
                    let held = pairs_of(kept@);
                    assert forall|j: int| 0 <= j < held.len() implies key_less(
                        #[trigger] held[j].0,
                        pairs[i as int].0,
                    ) by {
                        lemma_map_of_entry(held, j);
                    }
                    assert(slot_of(held, pairs[i as int].0, held.len() as int));
                    lemma_slot_decides(held, pairs[i as int].0, held.len() as int);
                    lemma_insert_at_slot(held, pairs[i as int].0, pairs[i as int].1, held.len() as int);
                    assert(held.insert(held.len() as int, pairs[i as int]) =~= pairs_of(kept@.push(copy)));
                    assert(map_of(held).insert(pairs[i as int].0, pairs[i as int].1) =~= map_of(
                        pairs.take(i + 1),
                    ).remove_keys(other@.dom()));
                }
                kept.push(copy);
            } else {
                proof {
                    assert(map_of(pairs.take(i as int)).remove_keys(other@.dom()) =~= map_of(
                        pairs.take(i + 1),
                    ).remove_keys(other@.dom()));
                }
            }
            i += 1;
        }
        proof {
            assert(pairs.take(i as int) =~= pairs);
        }
        EnvMap { entries: kept }
    }

    /// The entries, in ascending order of their names.
    pub fn entries(&self) -> (r: &Vec<Entry>)
        ensures
            pairs_of(r@) == listing(self@),
            ascending(pairs_of(r@)),
            map_of(pairs_of(r@)) == self@,
    {
        proof {
            use_type_invariant(self);
            lemma_listing(self.pairs());
        }
        &self.entries
    }
}

} // verus!
