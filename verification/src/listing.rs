//! Sequences of name and value pairs in ascending order of their names, and the
//! mappings that they stand for.
//!
//! A finite mapping has exactly one such sequence, its listing. The lemmas here say
//! how the mapping changes when a pair is put into the sequence, replaced in it or
//! left out at its end.

use vstd::prelude::*;
use crate::order::{key_less, lemma_key_less_asymmetric};

verus! {

/// Some position of `pairs` holds the name `key`.
pub open spec fn has_key(pairs: Seq<(Seq<char>, Seq<char>)>, key: Seq<char>) -> bool {
    exists|i: int| 0 <= i < pairs.len() && pairs[i].0 == key
}

/// A position of `pairs` that holds the name `key`, where there is one.
pub open spec fn position_of(pairs: Seq<(Seq<char>, Seq<char>)>, key: Seq<char>) -> int {
    choose|i: int| 0 <= i < pairs.len() && pairs[i].0 == key
}

/// The mapping that a sequence of name and value pairs stands for.
pub open spec fn map_of(pairs: Seq<(Seq<char>, Seq<char>)>) -> Map<Seq<char>, Seq<char>> {
    Map::new(|key: Seq<char>| has_key(pairs, key), |key: Seq<char>| pairs[position_of(pairs, key)].1)
}

/// The names of `pairs` strictly ascend: each comes before all that follow it.
pub open spec fn ascending(pairs: Seq<(Seq<char>, Seq<char>)>) -> bool {
    forall|i: int, j: int| 0 <= i < j < pairs.len() ==> key_less(#[trigger] pairs[i].0, #[trigger] pairs[j].0)
}

/// In an ascending sequence each name stands at one position only, so the mapping
/// takes every name to the value beside it.
pub proof fn lemma_map_of_entry(pairs: Seq<(Seq<char>, Seq<char>)>, i: int)
    requires
        ascending(pairs),
        0 <= i < pairs.len(),
    ensures
        map_of(pairs).contains_key(pairs[i].0),
        map_of(pairs)[pairs[i].0] == pairs[i].1,
        position_of(pairs, pairs[i].0) == i,
{
    let key = pairs[i].0;
    let j = position_of(pairs, key);
    assert(has_key(pairs, key));
    if j < i {
        lemma_key_less_asymmetric(pairs[j].0, pairs[i].0);
    } else if i < j {
        lemma_key_less_asymmetric(pairs[i].0, pairs[j].0);
    }
}

/// `at` is where `key` belongs in `pairs`: every name before it comes before `key`,
/// and every name from it on is `key` itself or comes after it.
pub open spec fn slot_of(pairs: Seq<(Seq<char>, Seq<char>)>, key: Seq<char>, at: int) -> bool {
    &&& 0 <= at <= pairs.len()
    &&& forall|i: int| 0 <= i < at ==> key_less(#[trigger] pairs[i].0, key)
    &&& forall|i: int| at < i < pairs.len() ==> key_less(key, #[trigger] pairs[i].0)
    &&& at < pairs.len() ==> pairs[at].0 == key || key_less(key, pairs[at].0)
}

/// In an ascending sequence a name is present exactly when it stands at its slot.
pub proof fn lemma_slot_decides(pairs: Seq<(Seq<char>, Seq<char>)>, key: Seq<char>, at: int)
    requires
        ascending(pairs),
        slot_of(pairs, key, at),
    ensures
        has_key(pairs, key) <==> (at < pairs.len() && pairs[at].0 == key),
        has_key(pairs, key) ==> map_of(pairs)[key] == pairs[at].1,
{
    if has_key(pairs, key) {
        let i = position_of(pairs, key);
        if i < at {
            lemma_key_less_asymmetric(pairs[i].0, key);
        } else if at < i {
            lemma_key_less_asymmetric(key, pairs[i].0);
        }
        lemma_map_of_entry(pairs, at);
    }
}

/// Putting a new name into its slot keeps the sequence ascending and adds the
/// name to the mapping.
pub proof fn lemma_insert_at_slot(
    pairs: Seq<(Seq<char>, Seq<char>)>,
    key: Seq<char>,
    value: Seq<char>,
    at: int,
)
    requires
        ascending(pairs),
        slot_of(pairs, key, at),
        !has_key(pairs, key),
    ensures
        ascending(pairs.insert(at, (key, value))),
        map_of(pairs.insert(at, (key, value))) == map_of(pairs).insert(key, value),
{
    let grown = pairs.insert(at, (key, value));
    lemma_slot_decides(pairs, key, at);
    assert forall|i: int, j: int| 0 <= i < j < grown.len() implies key_less(
        #[trigger] grown[i].0,
        #[trigger] grown[j].0,
    ) by {
        if j < at {
            assert(grown[i] == pairs[i] && grown[j] == pairs[j]);
        } else if j == at {
            assert(grown[i] == pairs[i]);
        } else if i < at {
            assert(grown[i] == pairs[i] && grown[j] == pairs[j - 1]);
        } else if i == at {
            assert(grown[j] == pairs[j - 1]);
        } else {
            assert(grown[i] == pairs[i - 1] && grown[j] == pairs[j - 1]);
        }
    }
    assert forall|q: Seq<char>| has_key(grown, q) <==> (q == key || has_key(pairs, q)) by {
        if has_key(grown, q) {
            let i = position_of(grown, q);
            if i < at {
                assert(pairs[i].0 == q);
            } else if i > at {
                assert(pairs[i - 1].0 == q);
            }
        }
        if q == key {
            assert(grown[at].0 == q);
        }
        if has_key(pairs, q) {
            let i = position_of(pairs, q);
            if i < at {
                assert(grown[i].0 == q);
            } else {
                assert(grown[i + 1].0 == q);
            }
        }
    }
    assert forall|q: Seq<char>| has_key(grown, q) implies map_of(grown)[q] == map_of(pairs).insert(
        key,
        value,
    )[q] by {
        if q == key {
            lemma_map_of_entry(grown, at);
        } else {
            let i = position_of(pairs, q);
            lemma_map_of_entry(pairs, i);
            if i < at {
                assert(grown[i] == pairs[i]);
                lemma_map_of_entry(grown, i);
            } else {
                assert(grown[i + 1] == pairs[i]);
                lemma_map_of_entry(grown, i + 1);
            }
        }
    }
    assert(map_of(grown) =~= map_of(pairs).insert(key, value));
}

/// Giving the name at a position a new value keeps the sequence ascending and
/// changes the mapping at that name only.
pub proof fn lemma_update_at(pairs: Seq<(Seq<char>, Seq<char>)>, at: int, value: Seq<char>)
    requires
        ascending(pairs),
        0 <= at < pairs.len(),
    ensures
        ascending(pairs.update(at, (pairs[at].0, value))),
        map_of(pairs.update(at, (pairs[at].0, value))) == map_of(pairs).insert(pairs[at].0, value),
{
    let key = pairs[at].0;
    let changed = pairs.update(at, (key, value));
    assert forall|i: int, j: int| 0 <= i < j < changed.len() implies key_less(
        #[trigger] changed[i].0,
        #[trigger] changed[j].0,
    ) by {
        assert(changed[i].0 == pairs[i].0 && changed[j].0 == pairs[j].0);
    }
    assert forall|q: Seq<char>| has_key(changed, q) <==> has_key(pairs, q) by {
        if has_key(changed, q) {
            let i = position_of(changed, q);
            assert(pairs[i].0 == q);
        }
        if has_key(pairs, q) {
            let i = position_of(pairs, q);
            assert(changed[i].0 == q);
        }
    }
    assert(has_key(pairs, key));
    assert forall|q: Seq<char>| has_key(changed, q) implies map_of(changed)[q] == map_of(pairs).insert(
        key,
        value,
    )[q] by {
        let i = position_of(pairs, q);
        lemma_map_of_entry(pairs, i);
        lemma_map_of_entry(changed, i);
    }
    assert(map_of(changed) =~= map_of(pairs).insert(key, value));
}

/// Leaving out the last pair of an ascending sequence takes its name, and nothing
/// else, out of the mapping.
pub proof fn lemma_drop_last(pairs: Seq<(Seq<char>, Seq<char>)>)
    requires
        ascending(pairs),
        pairs.len() > 0,
    ensures
        ascending(pairs.drop_last()),
        !has_key(pairs.drop_last(), pairs.last().0),
        map_of(pairs) == map_of(pairs.drop_last()).insert(pairs.last().0, pairs.last().1),
        map_of(pairs.drop_last()) == map_of(pairs).remove(pairs.last().0),
{
    let front = pairs.drop_last();
    let last = pairs.last();
    assert forall|i: int, j: int| 0 <= i < j < front.len() implies key_less(
        #[trigger] front[i].0,
        #[trigger] front[j].0,
    ) by {
        assert(front[i] == pairs[i] && front[j] == pairs[j]);
    }
    assert forall|i: int| 0 <= i < front.len() implies key_less(#[trigger] front[i].0, last.0) by {
        assert(front[i] == pairs[i]);
        assert(last == pairs[pairs.len() - 1]);
    }
    assert(slot_of(front, last.0, front.len() as int));
    lemma_slot_decides(front, last.0, front.len() as int);
    lemma_insert_at_slot(front, last.0, last.1, front.len() as int);
    assert(front.insert(front.len() as int, last) =~= pairs);
    assert(map_of(front) =~= map_of(front).insert(last.0, last.1).remove(last.0));
}

/// An ascending sequence stands for a finite mapping with one variable for each pair.
pub proof fn lemma_map_of_len(pairs: Seq<(Seq<char>, Seq<char>)>)
    requires
        ascending(pairs),
    ensures
        map_of(pairs).dom().finite(),
        map_of(pairs).len() == pairs.len(),
    decreases pairs.len(),
{
    if pairs.len() == 0 {
        assert(map_of(pairs).dom() =~= Set::<Seq<char>>::empty());
    } else {
        lemma_drop_last(pairs);
        lemma_map_of_len(pairs.drop_last());
        assert(!map_of(pairs.drop_last()).dom().contains(pairs.last().0));
    }
}

/// A mapping has one ascending sequence only: two such sequences that stand for the
/// same mapping are the same sequence.
pub proof fn lemma_ascending_unique(
    first: Seq<(Seq<char>, Seq<char>)>,
    second: Seq<(Seq<char>, Seq<char>)>,
)
    requires
        ascending(first),
        ascending(second),
        map_of(first) == map_of(second),
    ensures
        first == second,
    decreases first.len(),
{
    lemma_map_of_len(first);
    lemma_map_of_len(second);
    if first.len() == 0 {
        assert(first =~= second);
    } else {
        let a = first.last();
        let b = second.last();
        lemma_map_of_entry(first, first.len() - 1);
        lemma_map_of_entry(second, second.len() - 1);
        // Each last name is present in the other sequence, where nothing comes after the last.
        assert(has_key(second, a.0));
        assert(has_key(first, b.0));
        let i = position_of(second, a.0);
        let j = position_of(first, b.0);
        if i < second.len() - 1 {
            assert(key_less(second[i].0, second[second.len() - 1].0));
            if j < first.len() - 1 {
                assert(key_less(first[j].0, first[first.len() - 1].0));
                lemma_key_less_asymmetric(a.0, b.0);
            }
        }
        assert(a.0 == b.0);
        assert(a.1 == b.1);
        lemma_drop_last(first);
        lemma_drop_last(second);
        lemma_ascending_unique(first.drop_last(), second.drop_last());
        assert(first =~= first.drop_last().push(a));
        assert(second =~= second.drop_last().push(b));
    }
}

/// The first `n` pairs of an ascending sequence ascend too.
pub proof fn lemma_take_ascending(pairs: Seq<(Seq<char>, Seq<char>)>, n: int)
    requires
        ascending(pairs),
        0 <= n <= pairs.len(),
    ensures
        ascending(pairs.take(n)),
{
    let front = pairs.take(n);
    assert forall|i: int, j: int| 0 <= i < j < front.len() implies key_less(
        #[trigger] front[i].0,
        #[trigger] front[j].0,
    ) by {
        assert(front[i] == pairs[i] && front[j] == pairs[j]);
    }
}

/// Taking one more pair of an ascending sequence adds its name, which comes after
/// all the names taken before, to the mapping.
pub proof fn lemma_take_step(pairs: Seq<(Seq<char>, Seq<char>)>, i: int)
    requires
        ascending(pairs),
        0 <= i < pairs.len(),
    ensures
        ascending(pairs.take(i)),
        ascending(pairs.take(i + 1)),
        map_of(pairs.take(i + 1)) == map_of(pairs.take(i)).insert(pairs[i].0, pairs[i].1),
        !map_of(pairs.take(i)).contains_key(pairs[i].0),
        forall|q: Seq<char>| #[trigger] map_of(pairs.take(i)).contains_key(q) ==> key_less(q, pairs[i].0),
{
    let longer = pairs.take(i + 1);
    lemma_take_ascending(pairs, i);
    lemma_take_ascending(pairs, i + 1);
    lemma_drop_last(longer);
    assert(longer.drop_last() =~= pairs.take(i));
    assert(longer.last() == pairs[i]);
    assert forall|q: Seq<char>| #[trigger] map_of(pairs.take(i)).contains_key(q) implies key_less(
        q,
        pairs[i].0,
    ) by {
        let k = position_of(pairs.take(i), q);
        assert(pairs.take(i)[k] == pairs[k]);
    }
}

/// The variables of a mapping as pairs, in ascending order of their names.
pub open spec fn listing(map: Map<Seq<char>, Seq<char>>) -> Seq<(Seq<char>, Seq<char>)> {
    choose|pairs: Seq<(Seq<char>, Seq<char>)>| ascending(pairs) && map_of(pairs) == map
}

/// An ascending sequence is the listing of the mapping that it stands for.
pub proof fn lemma_listing(pairs: Seq<(Seq<char>, Seq<char>)>)
    requires
        ascending(pairs),
    ensures
        listing(map_of(pairs)) == pairs,
{
    let chosen = listing(map_of(pairs));
    assert(ascending(chosen) && map_of(chosen) == map_of(pairs));
    lemma_ascending_unique(chosen, pairs);
}

} // verus!
