//! Choosing by order.
//!
//! Where only the order of a quantity is asked, the quantity is handed over as a key: a
//! whole number that is less, equal or greater as the quantity is. The edge to collapse is
//! chosen in this way by the volume that its collapse adds, and the facet nearest to a
//! point by its distance from the point.

use vstd::prelude::*;

verus! {

/// The first of the positions at which `keys` is least.
pub open spec fn is_first_minimum(keys: Seq<i64>, at: int) -> bool {
    &&& 0 <= at < keys.len()
    &&& forall|j: int| 0 <= j < keys.len() ==> keys[at] <= #[trigger] keys[j]
    &&& forall|j: int| 0 <= j < at ==> keys[at] < #[trigger] keys[j]
}

/// The first of the positions at which `keys` is least; none where `keys` is empty.
///
/// A key stands for a quantity that only its order is asked of: the volume that a
/// collapse adds, the distance of a point from a facet.
pub fn first_minimum(keys: &[i64]) -> (r: Option<usize>)
    ensures
        match r {
            Some(at) => is_first_minimum(keys@, at as int),
            None => keys@.len() == 0,
        },
{
    if keys.len() == 0 {
        return None;
    }
    let mut best: usize = 0;
    let mut j: usize = 1;
    while j < keys.len()
        invariant
            1 <= j <= keys@.len(),
            is_first_minimum(keys@.take(j as int), best as int),
        decreases keys@.len() - j,
    {
        if keys[j] < keys[best] {
            best = j;
        }
        proof {
            let before = keys@.take(j as int);
            let now = keys@.take(j as int + 1);
            assert forall|i: int| 0 <= i < now.len() implies now[best as int] <= #[trigger] now[i] by {
                if i < j {
                    assert(before[i] == now[i]);
                }
            }
            assert forall|i: int| 0 <= i < best implies now[best as int] < #[trigger] now[i] by {
                assert(before[i] == now[i]);
            }
        }
        j += 1;
    }
    proof {
        assert(keys@.take(keys@.len() as int) =~= keys@);
    }
    Some(best)
}

} // verus!
