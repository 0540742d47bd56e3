//! Stable ordering by a (number, text) key.
//!
//! Several catalogs are ordered by a numeric priority and then by an identifier, keeping the
//! input order among equal keys (`slice::sort_by` is stable). [`stable_order`] computes that
//! order once, as a permutation of positions.
use vstd::prelude::*;

use crate::text::{compare_str, lemma_seq_lt_asymmetric, lemma_seq_lt_irreflexive, lemma_seq_lt_total, lemma_seq_lt_transitive, seq_lt, Order};

verus! {

/// Strict order of keys: by number, then by text.
pub open spec fn key_lt(a: (int, Seq<char>), b: (int, Seq<char>)) -> bool {
    a.0 < b.0 || (a.0 == b.0 && seq_lt(a.1, b.1))
}

/// The key of entry `i`.
pub open spec fn key_of(keys: Seq<(i64, String)>, i: int) -> (int, Seq<char>) {
    (keys[i].0 as int, keys[i].1@)
}

/// Mathematical keys of a list of keys.
pub open spec fn key_models(keys: Seq<(i64, String)>) -> Seq<(int, Seq<char>)> {
    Seq::new(keys.len(), |i: int| key_of(keys, i))
}

/// `order` visits `keys` in nondecreasing order, equal keys in input order.
pub open spec fn sorted_stably(keys: Seq<(int, Seq<char>)>, order: Seq<usize>) -> bool {
    &&& is_permutation(order, keys.len())
    &&& forall|a: int, b: int| #![trigger order[a], order[b]]
        0 <= a < b < order.len() ==> !key_lt(keys[order[b] as int], keys[order[a] as int])
    &&& forall|a: int, b: int| #![trigger order[a], order[b]]
        0 <= a < b < order.len() && keys[order[a] as int] == keys[order[b] as int] ==> order[a] < order[b]
}

/// `order` lists every position of `0..n` exactly once.
pub open spec fn is_permutation(order: Seq<usize>, n: nat) -> bool {
    &&& order.len() == n
    &&& forall|k: int| 0 <= k < order.len() ==> order[k] < n
    &&& forall|a: int, b: int| 0 <= a < b < order.len() ==> order[a] != order[b]
}

/// `order` visits the keys in nondecreasing order, equal keys in input order.
pub open spec fn is_stable_order(keys: Seq<(i64, String)>, order: Seq<usize>) -> bool {
    &&& is_permutation(order, keys.len())
    &&& forall|a: int, b: int| #![trigger order[a], order[b]]
        0 <= a < b < order.len() ==> !key_lt(key_of(keys, order[b] as int), key_of(keys, order[a] as int))
    &&& forall|a: int, b: int| #![trigger order[a], order[b]]
        0 <= a < b < order.len() && key_of(keys, order[a] as int) == key_of(keys, order[b] as int) ==> order[a] < order[b]
}

pub proof fn lemma_key_lt_transitive(a: (int, Seq<char>), b: (int, Seq<char>), c: (int, Seq<char>))
    requires
        key_lt(a, b),
        key_lt(b, c),
    ensures
        key_lt(a, c),
{
    if a.0 == b.0 && b.0 == c.0 {
        lemma_seq_lt_transitive(a.1, b.1, c.1);
    }
}

pub proof fn lemma_key_lt_total(a: (int, Seq<char>), b: (int, Seq<char>))
    ensures
        a == b || key_lt(a, b) || key_lt(b, a),
{
    lemma_seq_lt_total(a.1, b.1);
}

pub proof fn lemma_key_lt_asymmetric(a: (int, Seq<char>), b: (int, Seq<char>))
    requires
        key_lt(a, b),
    ensures
        !key_lt(b, a),
        a != b,
{
    if a.0 == b.0 {
        lemma_seq_lt_asymmetric(a.1, b.1);
        lemma_seq_lt_irreflexive(a.1);
    }
}

/// Whether key `i` is strictly below key `j`.
fn key_less(keys: &Vec<(i64, String)>, i: usize, j: usize) -> (r: bool)
    requires
        i < keys@.len(),
        j < keys@.len(),
    ensures
        r == key_lt(key_of(keys@, i as int), key_of(keys@, j as int)),
{
    if keys[i].0 < keys[j].0 {
        return true;
    }
    if keys[i].0 > keys[j].0 {
        return false;
    }
    match compare_str(keys[i].1.as_str(), keys[j].1.as_str()) {
        Order::Less => true,
        _ => false,
    }
}

/// Positions of `keys` in stable ascending key order.
pub fn stable_order(keys: &Vec<(i64, String)>) -> (r: Vec<usize>)
    ensures
        is_stable_order(keys@, r@),
        sorted_stably(key_models(keys@), r@),
{
    let n = keys.len();
    let mut out: Vec<usize> = Vec::new();
    for i in 0..n
        invariant
            n == keys@.len(),
            out@.len() == i,
            forall|k: int| 0 <= k < out@.len() ==> out@[k] < i,
            forall|a: int, b: int| 0 <= a < b < out@.len() ==> out@[a] != out@[b],
            forall|a: int, b: int| #![trigger out@[a], out@[b]]
                0 <= a < b < out@.len() ==> !key_lt(key_of(keys@, out@[b] as int), key_of(keys@, out@[a] as int)),
            forall|a: int, b: int| #![trigger out@[a], out@[b]]
                0 <= a < b < out@.len() && key_of(keys@, out@[a] as int) == key_of(keys@, out@[b] as int) ==> out@[a] < out@[b],
    {
        let m = out.len();
        let mut pos: usize = 0;
        while pos < m && !key_less(keys, i, out[pos])
            invariant
                pos <= m == out@.len(),
                i < n == keys@.len(),
                forall|k: int| 0 <= k < out@.len() ==> out@[k] < i,
                forall|k: int| 0 <= k < pos ==> !key_lt(key_of(keys@, i as int), #[trigger] key_of(keys@, out@[k] as int)),
            decreases m - pos,
        {
            pos = pos + 1;
        }
        let ghost ki = key_of(keys@, i as int);
        proof {
            if pos < m {
                assert(key_lt(ki, key_of(keys@, out@[pos as int] as int)));
                assert forall|k: int| pos <= k < m implies key_lt(ki, #[trigger] key_of(keys@, out@[k] as int)) by {
                    if k > pos {
                        let kp = key_of(keys@, out@[pos as int] as int);
                        let kk = key_of(keys@, out@[k] as int);
                        assert(!key_lt(kk, kp));
                        lemma_key_lt_total(kp, kk);
                        if kp != kk {
                            lemma_key_lt_transitive(ki, kp, kk);
                        }
                    }
                }
            }
        }
        let ghost old_out = out@;
        out.insert(pos, i);
        proof {
            assert forall|k: int| 0 <= k < out@.len() implies out@[k] < i + 1 by {
                if k < pos {
                    assert(out@[k] == old_out[k]);
                } else if k > pos {
                    assert(out@[k] == old_out[k - 1]);
                }
            }
            assert forall|a: int, b: int| 0 <= a < b < out@.len() implies out@[a] != out@[b] by {
                if a < pos && b < pos {
                    assert(out@[a] == old_out[a] && out@[b] == old_out[b]);
                } else if a < pos && b == pos {
                    assert(out@[a] == old_out[a]);
                } else if a < pos {
                    assert(out@[a] == old_out[a] && out@[b] == old_out[b - 1]);
                } else if a == pos {
                    assert(out@[b] == old_out[b - 1]);
                } else {
                    assert(out@[a] == old_out[a - 1] && out@[b] == old_out[b - 1]);
                }
            }
            assert forall|a: int, b: int| #![trigger out@[a], out@[b]]
                0 <= a < b < out@.len() implies !key_lt(key_of(keys@, out@[b] as int), key_of(keys@, out@[a] as int))
                    && (key_of(keys@, out@[a] as int) == key_of(keys@, out@[b] as int) ==> out@[a] < out@[b]) by {
                if a < pos && b < pos {
                    assert(out@[a] == old_out[a] && out@[b] == old_out[b]);
                } else if a < pos && b == pos {
                    assert(out@[a] == old_out[a]);
                    assert(!key_lt(ki, key_of(keys@, old_out[a] as int)));
                } else if a < pos {
                    assert(out@[a] == old_out[a] && out@[b] == old_out[b - 1]);
                } else if a == pos {
                    assert(out@[b] == old_out[b - 1]);
                    let kb = key_of(keys@, old_out[b - 1] as int);
                    assert(key_lt(ki, kb));
                    lemma_key_lt_asymmetric(ki, kb);
                } else {
                    assert(out@[a] == old_out[a - 1] && out@[b] == old_out[b - 1]);
                }
            }
        }
    }
    proof {
        let km = key_models(keys@);
        assert forall|a: int, b: int| #![trigger out@[a], out@[b]]
            0 <= a < b < out@.len() implies !key_lt(km[out@[b] as int], km[out@[a] as int])
                && (km[out@[a] as int] == km[out@[b] as int] ==> out@[a] < out@[b]) by {
            assert(km[out@[a] as int] == key_of(keys@, out@[a] as int));
            assert(km[out@[b] as int] == key_of(keys@, out@[b] as int));
        }
    }
    out
}


/// Rearranges `items` into the order `order` lists their positions in.
pub fn apply_order<T>(items: Vec<T>, order: &Vec<usize>) -> (r: Vec<T>)
    requires
        is_permutation(order@, items@.len()),
    ensures
        r@.len() == items@.len(),
        forall|k: int| 0 <= k < r@.len() ==> r@[k] == items@[order@[k] as int],
{
    let ghost src = items@;
    let n = order.len();
    let mut slots: Vec<Option<T>> = Vec::new();
    for x in it: items
        invariant
            it.seq() == src,
            slots@.len() == it.index(),
            forall|j: int| 0 <= j < slots@.len() ==> slots@[j] == Some(src[j]),
    {
        slots.push(Some(x));
    }
    let mut out: Vec<T> = Vec::new();
    for k in 0..n
        invariant
            n == order@.len() == src.len() == slots@.len(),
            is_permutation(order@, src.len()),
            out@.len() == k,
            forall|j: int| 0 <= j < k ==> out@[j] == src[order@[j] as int],
            forall|j: int| 0 <= j < n ==> (#[trigger] slots@[j] is None <==> exists|q: int| 0 <= q < k && order@[q] == j),
            forall|j: int| 0 <= j < n ==> (slots@[j] is Some ==> slots@[j] == Some(src[j])),
    {
        let idx = order[k];
        proof {
            assert(slots@[idx as int] is Some) by {
                if slots@[idx as int] is None {
                    let q = choose|q: int| 0 <= q < k && order@[q] == idx;
                    assert(order@[q] != order@[k as int]);
                }
            }
        }
        let slot = &mut slots[idx];
        let taken = slot.take();
        match taken {
            Some(x) => {
                out.push(x);
            },
            None => {
                assert(false);
            },
        }
        proof {
            assert forall|j: int| 0 <= j < n implies (#[trigger] slots@[j] is None <==> exists|q: int| 0 <= q < k + 1 && order@[q] == j) by {
                if j == idx {
                    assert(order@[k as int] == j);
                } else {
                    if exists|q: int| 0 <= q < k + 1 && order@[q] == j {
                        let q = choose|q: int| 0 <= q < k + 1 && order@[q] == j;
                        assert(q != k);
                    }
                }
            }
        }
    }
    out
}

} // verus!
