//! Strictly ascending lists of numbers: sets kept in order.

use vstd::prelude::*;

verus! {

/// Each entry of `s` is below the next.
pub open spec fn ascending(s: Seq<usize>) -> bool {
    forall|i: int, j: int| 0 <= i < j < s.len() ==> s[i] < s[j]
}

/// Puts `x` into the ascending list `list`, unless it is there already.
pub fn insert_sorted(list: &mut Vec<usize>, x: usize)
    requires
        ascending(old(list)@),
    ensures
        ascending(final(list)@),
        forall|w: usize| final(list)@.contains(w) <==> old(list)@.contains(w) || w == x,
{
    let mut p: usize = 0;
    while p < list.len() && list[p] < x
        invariant
            p <= list@.len(),
            list@ == old(list)@,
            forall|k: int| 0 <= k < p ==> list@[k] < x,
        decreases list@.len() - p,
    {
        p += 1;
    }
    if p < list.len() && list[p] == x {
        assert(list@.contains(x));
        return ;
    }
    let ghost before = list@;
    list.insert(p, x);
    proof {
        let after = list@;
        assert(after == before.insert(p as int, x));
        assert forall|i: int, j: int| 0 <= i < j < after.len() implies after[i] < after[j] by {
            if i < p && j > p {
                assert(after[i] == before[i]);
                assert(after[j] == before[j - 1]);
            } else if i >= p && j > p {
                if i > p {
                    assert(after[i] == before[i - 1]);
                }
                assert(after[j] == before[j - 1]);
            }
        }
        assert forall|w: usize| after.contains(w) <==> before.contains(w) || w == x by {
            if before.contains(w) {
                let k = before.index_of(w);
                if k < p {
                    assert(after[k] == w);
                } else {
                    assert(after[k + 1] == w);
                }
            }
            if w == x {
                assert(after[p as int] == w);
            }
            if after.contains(w) {
                let k = after.index_of(w);
                if k < p {
                    assert(before[k] == w);
                } else if k > p {
                    assert(before[k - 1] == w);
                }
            }
        }
    }
}

/// The numbers that are in `x` or in `y`, in ascending order.
pub fn union_sorted(x: &Vec<usize>, y: &Vec<usize>) -> (both: Vec<usize>)
    requires
        ascending(x@),
        ascending(y@),
    ensures
        ascending(both@),
        forall|w: usize| both@.contains(w) <==> x@.contains(w) || y@.contains(w),
{
    let mut both: Vec<usize> = Vec::new();
    let mut i: usize = 0;
    let mut j: usize = 0;
    while i < x.len() || j < y.len()
        invariant
            i <= x@.len(),
            j <= y@.len(),
            ascending(x@),
            ascending(y@),
            ascending(both@),
            forall|k: int| 0 <= k < both@.len() && i < x@.len() ==> both@[k] < x@[i as int],
            forall|k: int| 0 <= k < both@.len() && j < y@.len() ==> both@[k] < y@[j as int],
            forall|w: usize|
                both@.contains(w) <==> x@.take(i as int).contains(w) || y@.take(j as int).contains(
                    w,
                ),
        decreases x@.len() - i + y@.len() - j,
    {
        let ghost before = both@;
        let ghost i0 = i as int;
        let ghost j0 = j as int;
        let next: usize;
        if j >= y.len() || (i < x.len() && x[i] < y[j]) {
            next = x[i];
            i += 1;
        } else if i >= x.len() || y[j] < x[i] {
            next = y[j];
            j += 1;
        } else {
            next = x[i];
            i += 1;
            j += 1;
        }
        both.push(next);
        proof {
            let after = both@;
            assert(after == before.push(next));
            assert forall|w: usize|
                after.contains(w) <==> x@.take(i as int).contains(w) || y@.take(j as int).contains(
                    w,
                ) by {
                lemma_take_step(x@, i0, w);
                lemma_take_step(y@, j0, w);
                if before.contains(w) {
                    let k = before.index_of(w);
                    assert(after[k] == w);
                }
                if w == next {
                    assert(after[before.len() as int] == w);
                }
                if after.contains(w) {
                    let k = after.index_of(w);
                    if k < before.len() {
                        assert(before[k] == w);
                    }
                }
            }
        }
    }
    proof {
        assert(x@.take(i as int) =~= x@);
        assert(y@.take(j as int) =~= y@);
    }
    both
}

/// What one more entry adds to a prefix.
pub proof fn lemma_take_step(s: Seq<usize>, i: int, w: usize)
    requires
        0 <= i <= s.len(),
    ensures
        i < s.len() ==> (s.take(i + 1).contains(w) <==> s.take(i).contains(w) || s[i] == w),
{
    if i < s.len() {
        if s.take(i).contains(w) {
            let k = s.take(i).index_of(w);
            assert(s.take(i + 1)[k] == w);
        }
        if s[i] == w {
            assert(s.take(i + 1)[i] == w);
        }
        if s.take(i + 1).contains(w) {
            let k = s.take(i + 1).index_of(w);
            if k < i {
                assert(s.take(i)[k] == w);
            }
        }
    }
}

} // verus!
