//! The order in which variable names are kept and shown.
//!
//! Names are ordered lexicographically by the scalar values of their characters,
//! which is the order `str` itself has in Rust.

use vstd::prelude::*;
use vstd::std_specs::iter::IteratorSpec;

verus! {

/// `a` and `b` agree on their first `k` characters, and at position `k` either `a`
/// has ended while `b` goes on, or `a` holds the smaller character.
pub open spec fn precedes_at(a: Seq<char>, b: Seq<char>, k: int) -> bool {
    &&& 0 <= k <= a.len()
    &&& k <= b.len()
    &&& forall|i: int| 0 <= i < k ==> a[i] == b[i]
    &&& (k == a.len() && k < b.len()) || (k < a.len() && k < b.len() && a[k] < b[k])
}

/// `a` comes strictly before `b` in lexicographic order.
pub open spec fn key_less(a: Seq<char>, b: Seq<char>) -> bool {
    exists|k: int| precedes_at(a, b, k)
}

/// Where one name stands relative to another.
#[derive(Clone, Copy, Debug, PartialEq, Eq, Structural)]
pub enum Rank {
    Before,
    Same,
    After,
}

/// The rank that the order assigns to `a` relative to `b`.
pub open spec fn rank_of(a: Seq<char>, b: Seq<char>) -> Rank {
    if a == b {
        Rank::Same
    } else if key_less(a, b) {
        Rank::Before
    } else {
        Rank::After
    }
}

/// A position at which `a` precedes `b` leaves no position at which `b` precedes `a`.
proof fn lemma_precedes_excludes(a: Seq<char>, b: Seq<char>, k: int, m: int)
    requires
        precedes_at(a, b, k),
    ensures
        !precedes_at(b, a, m),
        a != b,
{
    if precedes_at(b, a, m) {
        if m < k {
            assert(a[m] == b[m]);
        } else if k < m {
            assert(b[k] == a[k]);
        }
    }
}

/// No name comes before itself, and of two names at most one comes before the other.
pub proof fn lemma_key_less_asymmetric(a: Seq<char>, b: Seq<char>)
    requires
        key_less(a, b),
    ensures
        !key_less(b, a),
        a != b,
{
    let k = choose|k: int| precedes_at(a, b, k);
    lemma_precedes_excludes(a, b, k, 0);
    assert forall|m: int| !precedes_at(b, a, m) by {
        lemma_precedes_excludes(a, b, k, m);
    }
}

/// Two names that agree on their first `k` characters agree on the next one too,
/// or one of them precedes the other, unless both end there.
proof fn lemma_connected_from(a: Seq<char>, b: Seq<char>, k: int)
    requires
        0 <= k <= a.len(),
        k <= b.len(),
        forall|i: int| 0 <= i < k ==> a[i] == b[i],
    ensures
        a == b || key_less(a, b) || key_less(b, a),
    decreases a.len() - k,
{
    if k == a.len() && k == b.len() {
        assert(a =~= b);
    } else if k == a.len() {
        assert(precedes_at(a, b, k));
    } else if k == b.len() {
        assert(precedes_at(b, a, k));
    } else if a[k] < b[k] {
        assert(precedes_at(a, b, k));
    } else if b[k] < a[k] {
        assert(precedes_at(b, a, k));
    } else {
        lemma_connected_from(a, b, k + 1);
    }
}

/// Any two distinct names are ordered one way or the other.
pub proof fn lemma_key_less_connected(a: Seq<char>, b: Seq<char>)
    ensures
        a == b || key_less(a, b) || key_less(b, a),
{
    lemma_connected_from(a, b, 0);
}

/// The order is transitive.
pub proof fn lemma_key_less_transitive(a: Seq<char>, b: Seq<char>, c: Seq<char>)
    requires
        key_less(a, b),
        key_less(b, c),
    ensures
        key_less(a, c),
{
    let k = choose|k: int| precedes_at(a, b, k);
    let m = choose|m: int| precedes_at(b, c, m);
    if k <= m {
        assert forall|i: int| 0 <= i < k implies a[i] == c[i] by {
            assert(a[i] == b[i]);
            assert(b[i] == c[i]);
        }
        if k < m {
            assert(b[k] == c[k]);
        }
        assert(precedes_at(a, c, k));
    } else {
        assert forall|i: int| 0 <= i < m implies a[i] == c[i] by {
            assert(a[i] == b[i]);
            assert(b[i] == c[i]);
        }
        assert(a[m] == b[m]);
        assert(precedes_at(a, c, m));
    }
}

/// Each rank stands for exactly one of the three ways two names can relate.
pub proof fn lemma_rank_of(a: Seq<char>, b: Seq<char>)
    ensures
        rank_of(a, b) == Rank::Before <==> key_less(a, b),
        rank_of(a, b) == Rank::Same <==> a == b,
        rank_of(a, b) == Rank::After <==> key_less(b, a),
{
    lemma_key_less_connected(a, b);
    if key_less(a, b) {
        lemma_key_less_asymmetric(a, b);
    }
    if key_less(b, a) {
        lemma_key_less_asymmetric(b, a);
    }
}

/// Compares two names character by character and says where `a` stands relative to `b`.
pub fn rank(a: &str, b: &str) -> (r: Rank)
    ensures
        r == rank_of(a@, b@),
{
    let mut rest_a = a.chars();
    let mut rest_b = b.chars();
    let ghost mut k: int = 0;
    loop
        invariant
            0 <= k <= a@.len(),
            k <= b@.len(),
            rest_a.remaining() == a@.skip(k),
            rest_b.remaining() == b@.skip(k),
            forall|i: int| 0 <= i < k ==> a@[i] == b@[i],
        decreases a@.len() - k,
    {
        let next_a = rest_a.next();
        let next_b = rest_b.next();
        match (next_a, next_b) {
            (None, None) => {
                assert(a@ =~= b@);
                return Rank::Same;
            },
            (None, Some(_)) => {
                assert(precedes_at(a@, b@, k));
                proof {
                    lemma_key_less_asymmetric(a@, b@);
                }
                return Rank::Before;
            },
            (Some(_), None) => {
                assert(precedes_at(b@, a@, k));
                proof {
                    lemma_key_less_asymmetric(b@, a@);
                }
                return Rank::After;
            },
            (Some(x), Some(y)) => {
                assert(x == a@[k]);
                assert(y == b@[k]);
                if x < y {
                    assert(precedes_at(a@, b@, k));
                    proof {
                        lemma_key_less_asymmetric(a@, b@);
                    }
                    return Rank::Before;
                } else if y < x {
                    assert(precedes_at(b@, a@, k));
                    proof {
                        lemma_key_less_asymmetric(b@, a@);
                    }
                    return Rank::After;
                }
                proof {
                    k = k + 1;
                }
            },
        }
    }
}

} // verus!
