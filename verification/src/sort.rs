//! Stable ordering of rows by a numeric key: rows with equal keys keep the order of
//! their indices, as a stable sort of an index list in increasing order does.

use vstd::prelude::*;

verus! {

/// Row `a` comes before row `b`: a smaller key, or an equal key and a smaller index.
pub open spec fn before(keys: Seq<u128>, a: usize, b: usize) -> bool {
    keys[a as int] < keys[b as int] || (keys[a as int] == keys[b as int] && a < b)
}

/// Each row of `q` comes before every later one.
pub open spec fn in_order(keys: Seq<u128>, q: Seq<usize>) -> bool {
    forall|i: int, j: int| 0 <= i < j < q.len() ==> before(keys, #[trigger] q[i], #[trigger] q[j])
}

/// The rows of `s` in stable key order.
pub open spec fn sorted_order(keys: Seq<u128>, s: Set<usize>) -> Seq<usize> {
    choose|q: Seq<usize>| in_order(keys, q) && q.to_set() == s
}

proof fn lemma_in_order_unique_at(keys: Seq<u128>, q1: Seq<usize>, q2: Seq<usize>, i: int)
    requires
        in_order(keys, q1),
        in_order(keys, q2),
        q1.to_set() == q2.to_set(),
        0 <= i < q1.len(),
        i < q2.len(),
    ensures
        q1[i] == q2[i],
    decreases i,
{
    assert forall|k: int| 0 <= k < i implies q1[k] == q2[k] by {
        lemma_in_order_unique_at(keys, q1, q2, k);
    }
    if q1[i] != q2[i] {
        if before(keys, q1[i], q2[i]) {
            assert(q2.to_set().contains(q1[i]));
            let j = choose|j: int| 0 <= j < q2.len() && q2[j] == q1[i];
            if j < i {
                assert(q1[j] == q2[j]);
                assert(before(keys, q1[j], q1[i]));
            } else if j > i {
                assert(before(keys, q2[i], q2[j]));
            }
        } else {
            assert(q1.to_set().contains(q2[i]));
            let j = choose|j: int| 0 <= j < q1.len() && q1[j] == q2[i];
            if j < i {
                assert(q1[j] == q2[j]);
                assert(before(keys, q2[j], q2[i]));
            } else if j > i {
                assert(before(keys, q1[i], q1[j]));
            }
        }
    }
}

/// There is only one stable key order of a set of rows.
pub proof fn lemma_in_order_unique(keys: Seq<u128>, q1: Seq<usize>, q2: Seq<usize>)
    requires
        in_order(keys, q1),
        in_order(keys, q2),
        q1.to_set() == q2.to_set(),
    ensures
        q1 == q2,
{
    assert forall|i: int| 0 <= i < q1.len() && i < q2.len() implies q1[i] == q2[i] by {
        lemma_in_order_unique_at(keys, q1, q2, i);
    }
    if q1.len() < q2.len() {
        let n = q1.len() as int;
        assert(q1.to_set().contains(q2[n]));
        let j = choose|j: int| 0 <= j < q1.len() && q1[j] == q2[n];
        assert(q1[j] == q2[j]);
        assert(before(keys, q2[j], q2[n]));
    } else if q2.len() < q1.len() {
        let n = q2.len() as int;
        assert(q2.to_set().contains(q1[n]));
        let j = choose|j: int| 0 <= j < q2.len() && q2[j] == q1[n];
        assert(q1[j] == q2[j]);
        assert(before(keys, q1[j], q1[n]));
    }
    assert(q1 =~= q2);
}

/// A stable key order is the `sorted_order` of its rows.
pub proof fn lemma_sorted_order(keys: Seq<u128>, q: Seq<usize>)
    requires
        in_order(keys, q),
    ensures
        sorted_order(keys, q.to_set()) == q,
{
    assert(in_order(keys, q) && q.to_set() == q.to_set());
    lemma_in_order_unique(keys, sorted_order(keys, q.to_set()), q);
}

/// Rows in stable key order hold no row twice.
pub proof fn lemma_in_order_no_duplicates(keys: Seq<u128>, q: Seq<usize>)
    requires
        in_order(keys, q),
    ensures
        q.no_duplicates(),
{
    assert forall|i: int, j: int| 0 <= i < q.len() && 0 <= j < q.len() && i != j implies q[i]
        != q[j] by {
        if i < j {
            assert(before(keys, q[i], q[j]));
        } else {
            assert(before(keys, q[j], q[i]));
        }
    }
}

/// The rows `idx` in stable key order: by key, and rows with equal keys by index.
pub fn stable_sort_indices(keys: &Vec<u128>, idx: &Vec<usize>) -> (r: Vec<usize>)
    requires
        idx@.no_duplicates(),
        forall|i: int| 0 <= i < idx@.len() ==> (#[trigger] idx@[i]) < keys@.len(),
    ensures
        r@ == sorted_order(keys@, idx@.to_set()),
        in_order(keys@, r@),
        r@.to_set() == idx@.to_set(),
        r@.len() == idx@.len(),
{
    let mut out: Vec<usize> = Vec::new();
    for i in 0..idx.len()
        invariant
            idx@.no_duplicates(),
            forall|m: int| 0 <= m < idx@.len() ==> (#[trigger] idx@[m]) < keys@.len(),
            in_order(keys@, out@),
            out@.to_set() == idx@.take(i as int).to_set(),
            out@.len() == i,
            forall|m: int| 0 <= m < out@.len() ==> (#[trigger] out@[m]) < keys@.len(),
    {
        let x = idx[i];
        let kx = keys[x];
        let mut j: usize = 0;
        while j < out.len() && (keys[out[j]] < kx || (keys[out[j]] == kx && out[j] < x))
            invariant
                j <= out@.len(),
                x < keys@.len(),
                kx == keys@[x as int],
                forall|m: int| 0 <= m < out@.len() ==> (#[trigger] out@[m]) < keys@.len(),
                forall|m: int| 0 <= m < j ==> before(keys@, #[trigger] out@[m], x),
            decreases out.len() - j,
        {
            j = j + 1;
        }
        proof {
            assert(!idx@.take(i as int).contains(x)) by {
                if idx@.take(i as int).contains(x) {
                    let m = choose|m: int| 0 <= m < i && idx@.take(i as int)[m] == x;
                    assert(idx@[m] == idx@[i as int]);
                }
            }
            assert(!out@.contains(x)) by {
                if out@.contains(x) {
                    let m = choose|m: int| 0 <= m < out@.len() && out@[m] == x;
                    assert(out@.to_set().contains(x));
                }
            }
            assert forall|m: int| j <= m < out@.len() implies before(keys@, x, #[trigger] out@[m]) by {
                if j < out@.len() {
                    assert(!before(keys@, out@[j as int], x));
                    assert(out@[j as int] != x);
                    if m > j {
                        assert(before(keys@, out@[j as int], out@[m]));
                    }
                }
            }
        }
        let ghost old_out = out@;
        out.insert(j, x);
        proof {
            assert(out@ == old_out.insert(j as int, x));
            assert forall|a: int, b: int| 0 <= a < b < out@.len() implies before(
                keys@,
                #[trigger] out@[a],
                #[trigger] out@[b],
            ) by {
                if a < j && b < j {
                    assert(out@[a] == old_out[a] && out@[b] == old_out[b]);
                } else if a < j && b == j {
                    assert(out@[a] == old_out[a]);
                } else if a < j && b > j {
                    assert(out@[a] == old_out[a] && out@[b] == old_out[b - 1]);
                } else if a == j {
                    assert(out@[b] == old_out[b - 1]);
                } else {
                    assert(out@[a] == old_out[a - 1] && out@[b] == old_out[b - 1]);
                }
            }
            assert(idx@.take(i + 1) =~= idx@.take(i as int).push(x));
            assert forall|y: usize| out@.to_set().contains(y) <==> idx@.take(i + 1).to_set().contains(y) by {
                if out@.to_set().contains(y) {
                    let m = choose|m: int| 0 <= m < out@.len() && out@[m] == y;
                    if m < j {
                        assert(old_out[m] == y);
                        assert(old_out.to_set().contains(y));
                        let p = choose|p: int| 0 <= p < i && idx@.take(i as int)[p] == y;
                        assert(idx@.take(i + 1)[p] == y);
                    } else if m > j {
                        assert(old_out[m - 1] == y);
                        assert(old_out.to_set().contains(y));
                        let p = choose|p: int| 0 <= p < i && idx@.take(i as int)[p] == y;
                        assert(idx@.take(i + 1)[p] == y);
                    } else {
                        assert(idx@.take(i + 1)[i as int] == y);
                    }
                }
                let t1 = idx@.take(i + 1);
                if t1.to_set().contains(y) {
                    let p = choose|p: int| 0 <= p < t1.len() && t1[p] == y;
                    if p < i {
                        assert(idx@.take(i as int)[p] == y);
                        assert(old_out.to_set().contains(y));
                        let m = choose|m: int| 0 <= m < old_out.len() && old_out[m] == y;
                        if m < j {
                            assert(out@[m] == y);
                        } else {
                            assert(out@[m + 1] == y);
                        }
                    } else {
                        assert(out@[j as int] == y);
                    }
                }
            }
            assert(out@.to_set() =~= idx@.take(i + 1).to_set());
            assert forall|m: int| 0 <= m < out@.len() implies (#[trigger] out@[m]) < keys@.len() by {
                if m < j {
                    assert(out@[m] == old_out[m]);
                } else if m > j {
                    assert(out@[m] == old_out[m - 1]);
                }
            }
        }
    }
    proof {
        assert(idx@.take(idx@.len() as int) =~= idx@);
        lemma_sorted_order(keys@, out@);
    }
    out
}

} // verus!
