//! Stable ordering by descending keys.

use vstd::prelude::*;

verus! {

/// A key compared lexicographically: `major`, then `middle`, then `minor`.
#[derive(Clone, Copy, Debug, PartialEq, Eq, Structural)]
pub struct SortKey {
    pub major: u64,
    pub middle: i64,
    pub minor: u64,
}

/// Whether key `a` is strictly greater than key `b`, lexicographically.
pub open spec fn key_greater(a: SortKey, b: SortKey) -> bool {
    ||| a.major > b.major
    ||| a.major == b.major && a.middle > b.middle
    ||| a.major == b.major && a.middle == b.middle && a.minor > b.minor
}

/// Whether item `i` comes before item `j` in a stable descending order of
/// `keys`: its key is greater, or the keys are equal and it came first.
pub open spec fn ranks_before(keys: Seq<SortKey>, i: int, j: int) -> bool {
    key_greater(keys[i], keys[j]) || (keys[i] == keys[j] && i < j)
}

/// Whether `p` lists each position `0..n` exactly once.
pub open spec fn is_permutation(p: Seq<int>, n: nat) -> bool {
    &&& p.len() == n
    &&& forall|r: int| 0 <= r < n ==> 0 <= #[trigger] p[r] < n
    &&& forall|a: int, b: int| 0 <= a < b < n ==> p[a] != p[b]
}

/// Whether the order `p` of the positions of `keys` is the stable descending
/// order: greater keys first, equal keys in the order they were given.
pub open spec fn stable_descending(keys: Seq<SortKey>, p: Seq<int>) -> bool {
    &&& is_permutation(p, keys.len())
    &&& forall|a: int, b: int| 0 <= a < b < p.len() ==> ranks_before(keys, #[trigger] p[a], #[trigger] p[b])
}

/// The items at the positions `p`, in that order.
pub open spec fn permuted<T>(items: Seq<T>, p: Seq<int>) -> Seq<T> {
    Seq::new(p.len(), |r: int| items[p[r]])
}

fn greater(a: SortKey, b: SortKey) -> (r: bool)
    ensures
        r == key_greater(a, b),
{
    a.major > b.major || (a.major == b.major && a.middle > b.middle) || (a.major == b.major
        && a.middle == b.middle && a.minor > b.minor)
}

/// Reorders `items`, whose keys are `keys`, stably by descending key; the
/// ghost result lists the positions of the input in their new order.
pub(crate) fn stable_sort_descending<T>(items: Vec<T>, keys: &Vec<SortKey>) -> (r: (
    Vec<T>,
    Ghost<Seq<int>>,
))
    requires
        items@.len() == keys@.len(),
    ensures
        stable_descending(keys@, r.1@),
        r.0@ == permuted(items@, r.1@),
        r.0@.to_multiset() == items@.to_multiset(),
{
    broadcast use vstd::seq_lib::group_to_multiset_ensures;

    let ghost orig = items@;
    let n = keys.len();
    let mut out: Vec<T> = Vec::new();
    let mut out_keys: Vec<SortKey> = Vec::new();
    let ghost mut perm: Seq<int> = seq![];
    let mut k: usize = 0;
    for x in it: items
        invariant
            n == keys@.len(),
            orig.len() == n,
            it.seq() == orig,
            k == it.index(),
            k <= n,
            out@.len() == k,
            out_keys@.len() == k,
            perm.len() == k,
            forall|r: int| 0 <= r < k ==> 0 <= #[trigger] perm[r] < k,
            out@.to_multiset() == orig.take(k as int).to_multiset(),
            forall|r: int| 0 <= r < k ==> #[trigger] out@[r] == orig[perm[r]],
            forall|r: int| 0 <= r < k ==> #[trigger] out_keys@[r] == keys@[perm[r]],
            forall|a: int, b: int|
                0 <= a < b < k ==> ranks_before(keys@, #[trigger] perm[a], #[trigger] perm[b]),
    {
        assert(x == orig[k as int]);
        let kk = keys[k];
        let mut q: usize = 0;
        while q < out_keys.len() && !greater(kk, out_keys[q])
            invariant
                q <= out_keys@.len(),
                forall|r: int| 0 <= r < q ==> !key_greater(kk, #[trigger] out_keys@[r]),
            decreases out_keys@.len() - q,
        {
            q = q + 1;
        }
        proof {
            assert forall|r: int| q <= r < k implies key_greater(kk, #[trigger] out_keys@[r]) by {
                if r > q {
                    assert(ranks_before(keys@, perm[q as int], perm[r]));
                }
            }
        }
        let ghost old_perm = perm;
        assert(orig.take(k + 1) =~= orig.take(k as int).push(x));
        let ghost old_out = out@;
        out.insert(q, x);
        proof {
            vstd::seq_lib::to_multiset_insert(old_out, q as int, x);
            vstd::seq_lib::to_multiset_build(orig.take(k as int), x);
        }
        out_keys.insert(q, kk);
        proof {
            perm = perm.insert(q as int, k as int);
            assert forall|r: int| 0 <= r < k + 1 implies 0 <= #[trigger] perm[r] < k + 1 by {
                if r < q {
                    assert(perm[r] == old_perm[r]);
                } else if r > q {
                    assert(perm[r] == old_perm[r - 1]);
                }
            }
            assert forall|r: int| 0 <= r < k + 1 implies #[trigger] out@[r] == orig[perm[r]] by {
                if r < q {
                    assert(perm[r] == old_perm[r]);
                } else if r > q {
                    assert(perm[r] == old_perm[r - 1]);
                }
            }
            assert forall|r: int| 0 <= r < k + 1 implies #[trigger] out_keys@[r] == keys@[perm[r]] by {
                if r < q {
                    assert(perm[r] == old_perm[r]);
                } else if r > q {
                    assert(perm[r] == old_perm[r - 1]);
                }
            }
            assert forall|a: int, b: int| 0 <= a < b < k + 1 implies ranks_before(
                keys@,
                #[trigger] perm[a],
                #[trigger] perm[b],
            ) by {
                if b < q {
                    assert(ranks_before(keys@, old_perm[a], old_perm[b]));
                } else if a > q {
                    assert(ranks_before(keys@, old_perm[a - 1], old_perm[b - 1]));
                } else if a < q && b > q {
                    assert(ranks_before(keys@, old_perm[a], old_perm[b - 1]));
                } else if a == q {
                    assert(key_greater(kk, out_keys@[b]));
                    assert(out_keys@[b] == keys@[old_perm[b - 1]]);
                } else {
                    assert(b == q);
                    assert(!key_greater(kk, out_keys@[a]));
                    assert(old_perm[a] < k);
                }
            }
        }
        k = k + 1;
    }
    assert(out@ =~= permuted(orig, perm));
    assert(orig.take(n as int) =~= orig);
    (out, Ghost(perm))
}

/// A permutation of the positions `0..n` lists every one of them.
pub proof fn lemma_permutation_onto(p: Seq<int>, n: nat, v: int)
    requires
        is_permutation(p, n),
        0 <= v < n,
    ensures
        exists|k: int| 0 <= k < n && p[k] == v,
{
    assert(p.no_duplicates()) by {
        assert forall|a: int, b: int| 0 <= a < p.len() && 0 <= b < p.len() && a != b implies p[a]
            != p[b] by {
            if a < b {
            } else {
                assert(p[b] != p[a]);
            }
        }
    }
    p.unique_seq_to_set();
    vstd::set_lib::lemma_int_range(0, n as int);
    let range = vstd::set_lib::set_int_range(0, n as int);
    assert(p.to_set().subset_of(range)) by {
        assert forall|x: int| p.to_set().contains(x) implies range.contains(x) by {
            let k = choose|k: int| 0 <= k < p.len() && p[k] == x;
            assert(0 <= p[k] < n);
        }
    }
    vstd::seq_lib::seq_to_set_is_finite(p);
    vstd::set_lib::lemma_subset_equality(p.to_set(), range);
    assert(range.contains(v));
    assert(p.to_set().contains(v));
}

proof fn lemma_orders_agree_at(keys: Seq<SortKey>, p1: Seq<int>, p2: Seq<int>, a: int)
    requires
        stable_descending(keys, p1),
        stable_descending(keys, p2),
        0 <= a < keys.len(),
        forall|k: int| 0 <= k < a ==> p1[k] == p2[k],
    ensures
        p1[a] == p2[a],
{
    let n = keys.len();
    let x = p1[a];
    let y = p2[a];
    if x != y {
        lemma_permutation_onto(p2, n, x);
        lemma_permutation_onto(p1, n, y);
        let b = choose|k: int| 0 <= k < n && p2[k] == x;
        let c = choose|k: int| 0 <= k < n && p1[k] == y;
        if b < a {
            assert(p1[b] == x);
        }
        if c < a {
            assert(p2[c] == y);
        }
        assert(b > a && c > a);
        assert(ranks_before(keys, p2[a], p2[b]));
        assert(ranks_before(keys, p1[a], p1[c]));
    }
}

proof fn lemma_orders_agree_upto(keys: Seq<SortKey>, p1: Seq<int>, p2: Seq<int>, a: int)
    requires
        stable_descending(keys, p1),
        stable_descending(keys, p2),
        0 <= a <= keys.len(),
    ensures
        forall|k: int| 0 <= k < a ==> p1[k] == p2[k],
    decreases a,
{
    if a > 0 {
        lemma_orders_agree_upto(keys, p1, p2, a - 1);
        lemma_orders_agree_at(keys, p1, p2, a - 1);
    }
}

/// There is only one stable descending order of given keys, so a stable sort
/// has exactly one possible outcome.
pub proof fn lemma_stable_order_unique(keys: Seq<SortKey>, p1: Seq<int>, p2: Seq<int>)
    requires
        stable_descending(keys, p1),
        stable_descending(keys, p2),
    ensures
        p1 == p2,
{
    lemma_orders_agree_upto(keys, p1, p2, keys.len() as int);
    assert(p1 =~= p2);
}

} // verus!
