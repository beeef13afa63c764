//! Choosing among the regions of a download index that cover a place.

use vstd::prelude::*;

verus! {

/// `i` is the position of the first smallest of `areas`.
pub open spec fn is_first_smallest(areas: Seq<usize>, i: int) -> bool {
    &&& 0 <= i < areas.len()
    &&& forall|j: int| 0 <= j < areas.len() ==> areas[i] <= #[trigger] areas[j]
    &&& forall|j: int| 0 <= j < i ==> areas[i] < #[trigger] areas[j]
}

/// Finds the region with the smallest area, the first of them where several
/// are equally small. `None` if there is no region at all.
pub fn smallest_region(areas: &Vec<usize>) -> (found: Option<usize>)
    ensures
        found.is_none() <==> areas@.len() == 0,
        found matches Some(i) ==> is_first_smallest(areas@, i as int),
{
    if areas.len() == 0 {
        return None;
    }
    let mut best: usize = 0;
    let mut k: usize = 1;
    while k < areas.len()
        invariant
            0 <= best < k <= areas.len(),
            forall|j: int| 0 <= j < k ==> areas@[best as int] <= #[trigger] areas@[j],
            forall|j: int| 0 <= j < best ==> areas@[best as int] < #[trigger] areas@[j],
        decreases areas.len() - k,
    {
        if areas[k] < areas[best] {
            best = k;
        }
        k += 1;
    }
    Some(best)
}

} // verus!
