//! Sorting by index: the order of a list of coordinates, told as the list
//! of their positions.
use vstd::prelude::*;

verus! {

/// The entry at `i` comes before the entry at `j`: by value, and among
/// equal values by position.
pub open spec fn comes_before(data: Seq<i32>, i: usize, j: usize) -> bool {
    data[i as int] < data[j as int] || (data[i as int] == data[j as int] && i < j)
}

/// `order` lists every position of `data` once, by value, equal values in
/// the order in which they stand in `data`.
pub open spec fn is_argsort(data: Seq<i32>, order: Seq<usize>) -> bool {
    &&& order.len() == data.len()
    &&& forall|k: int| 0 <= k < order.len() ==> (#[trigger] order[k]) < data.len()
    &&& forall|p: int, q: int|
        0 <= p < q < order.len() ==> comes_before(data, #[trigger] order[p], #[trigger] order[q])
    &&& forall|i: usize| i < data.len() ==> #[trigger] order.contains(i)
}

/// The positions of `data` in the order of a stable sort of their values.
pub fn argsort(data: &[i32]) -> (order: Vec<usize>)
    ensures
        is_argsort(data@, order@),
{
    let mut order: Vec<usize> = Vec::new();
    let mut i: usize = 0;
    while i < data.len()
        invariant
            i <= data@.len(),
            order@.len() == i,
            forall|k: int| 0 <= k < order@.len() ==> (#[trigger] order@[k]) < i,
            forall|p: int, q: int|
                0 <= p < q < order@.len() ==> comes_before(data@, #[trigger] order@[p], #[trigger] order@[q]),
            forall|m: usize| m < i ==> #[trigger] order@.contains(m),
        decreases data@.len() - i,
    {
        let mut j: usize = 0;
        while j < order.len() && data[order[j]] <= data[i]
            invariant
                j <= order@.len(),
                i < data@.len(),
                forall|k: int| 0 <= k < order@.len() ==> (#[trigger] order@[k]) < i,
                forall|k: int| 0 <= k < j ==> data@[(#[trigger] order@[k]) as int] <= data@[i as int],
            decreases order@.len() - j,
        {
            j += 1;
        }
        proof {
            let before = order@;
            let after = before.insert(j as int, i);
            assert forall|p: int, q: int| 0 <= p < q < after.len() implies comes_before(
                data@,
                #[trigger] after[p],
                #[trigger] after[q],
            ) by {
                if q < j {
                    assert(after[p] == before[p] && after[q] == before[q]);
                } else if q == j {
                    assert(after[p] == before[p]);
                } else if p < j {
                    assert(after[p] == before[p] && after[q] == before[q - 1]);
                } else if p == j {
                    assert(after[q] == before[q - 1]);
                    assert(data@[before[j as int] as int] > data@[i as int]);
                    assert(j as int == q - 1 || comes_before(data@, before[j as int], before[q - 1]));
                } else {
                    assert(after[p] == before[p - 1] && after[q] == before[q - 1]);
                }
            }
            assert forall|m: usize| m < i + 1 implies #[trigger] after.contains(m) by {
                if m == i {
                    assert(after[j as int] == i);
                } else {
                    assert(before.contains(m));
                    let k = choose|k: int| 0 <= k < before.len() && before[k] == m;
                    if k < j {
                        assert(after[k] == m);
                    } else {
                        assert(after[k + 1] == m);
                    }
                }
            }
            assert forall|k: int| 0 <= k < after.len() implies (#[trigger] after[k]) < i + 1 by {
                if k < j {
                    assert(after[k] == before[k]);
                } else if k > j {
                    assert(after[k] == before[k - 1]);
                }
            }
        }
        order.insert(j, i);
        i += 1;
    }
    order
}

} // verus!
