//! Sorted, de-duplicated index sets: the normal form of subcluster surface
//! lists and of the per-cluster surface tables derived from them.

use vstd::prelude::*;

verus! {

/// Strictly ascending: sorted with no duplicates.
pub open spec fn strictly_sorted(s: Seq<usize>) -> bool {
    forall|i: int, j: int| 0 <= i < j < s.len() ==> (#[trigger] s[i]) < (#[trigger] s[j])
}

/// Insert `e` into a strictly sorted vector, keeping it strictly sorted;
/// inserting an element already present changes nothing.
pub fn sorted_insert(out: &mut Vec<usize>, e: usize)
    requires
        strictly_sorted(old(out)@),
    ensures
        strictly_sorted(final(out)@),
        forall|x: usize| final(out)@.contains(x) <==> (old(out)@.contains(x) || x == e),
{
    let n = out.len();
    let mut j: usize = 0;
    while j < n && out[j] < e
        invariant
            0 <= j <= n,
            n == out@.len(),
            strictly_sorted(out@),
            forall|k: int| 0 <= k < j ==> (#[trigger] out@[k]) < e,
        decreases n - j,
    {
        j = j + 1;
    }
    if j < n && out[j] == e {
        proof {
            assert(out@.contains(e));
        }
        return;
    }
    proof {
        if j < n {
            assert(out@[j as int] > e);
        }
    }
    let ghost pre = out@;
    out.insert(j, e);
    proof {
        assert(out@ == pre.insert(j as int, e));
        assert(out@.len() == pre.len() + 1);
        assert(forall|k: int| 0 <= k < j ==> out@[k] == pre[k]);
        assert(out@[j as int] == e);
        assert(forall|k: int| j < k < out@.len() ==> out@[k] == pre[k - 1]);
        assert forall|a: int, b: int| 0 <= a < b < out@.len()
            implies (#[trigger] out@[a]) < (#[trigger] out@[b]) by {
            if a == j as int {
                assert(pre[b - 1] > e);
            } else if b == j as int {
                assert(pre[a] < e);
            } else if a < j as int && b > j as int {
                if b - 1 == a {
                    assert(pre[a] < e && e < pre[b - 1]);
                } else {
                    assert(pre[a] < pre[b - 1]);
                }
            }
        }
        assert forall|x: usize| out@.contains(x) <==> (pre.contains(x) || x == e) by {
            if out@.contains(x) {
                let w = choose|w: int| 0 <= w < out@.len() && out@[w] == x;
                if w < j as int {
                    assert(pre[w] == x);
                } else if w == j as int {
                } else {
                    assert(pre[w - 1] == x);
                }
            }
            if pre.contains(x) {
                let w = choose|w: int| 0 <= w < pre.len() && pre[w] == x;
                if w < j as int {
                    assert(out@[w] == x);
                } else {
                    assert(out@[w + 1] == x);
                }
            }
            if x == e {
                assert(out@[j as int] == x);
            }
        }
    }
}

/// The strictly sorted sequence holding exactly the values of `v`.
pub fn sort_dedup(v: &Vec<usize>) -> (r: Vec<usize>)
    ensures
        strictly_sorted(r@),
        forall|x: usize| r@.contains(x) <==> v@.contains(x),
{
    let mut out: Vec<usize> = Vec::new();
    let mut i: usize = 0;
    while i < v.len()
        invariant
            0 <= i <= v@.len(),
            strictly_sorted(out@),
            forall|x: usize| out@.contains(x) <==> v@.take(i as int).contains(x),
        decreases v@.len() - i,
    {
        let ghost preout = out@;
        sorted_insert(&mut out, v[i]);
        proof {
            assert(v@.take(i as int + 1).drop_last() =~= v@.take(i as int));
            assert(v@.take(i as int + 1).last() == v@[i as int]);
            assert forall|x: usize|
                out@.contains(x) <==> v@.take(i as int + 1).contains(x) by {
                let t1 = v@.take(i as int + 1);
                if out@.contains(x) {
                    if preout.contains(x) {
                        let w = choose|w: int|
                            0 <= w < v@.take(i as int).len() && v@.take(i as int)[w] == x;
                        assert(t1[w] == x);
                    } else {
                        assert(x == v@[i as int]);
                        assert(t1[i as int] == x);
                    }
                }
                if t1.contains(x) {
                    let w = choose|w: int| 0 <= w < t1.len() && t1[w] == x;
                    if w < i as int {
                        assert(v@.take(i as int)[w] == x);
                    } else {
                        assert(x == v@[i as int]);
                    }
                }
            }
        }
        i = i + 1;
    }
    proof {
        assert(v@.take(v@.len() as int) =~= v@);
    }
    out
}

} // verus!
