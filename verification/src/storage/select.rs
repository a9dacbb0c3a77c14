//! Selection by flags: the places of a list that a pass has marked.

use vstd::prelude::*;

verus! {

/// The place `idx` is one of `picked`.
pub open spec fn picked_has(picked: Seq<usize>, idx: int) -> bool {
    exists|x: int| 0 <= x < picked.len() && #[trigger] picked[x] == idx
}

/// The places at which `flags` is set, in ascending order.
pub(crate) fn pick(flags: &Vec<bool>) -> (picked: Vec<usize>)
    ensures
        forall|x: int|
            0 <= x < picked.len() ==> (#[trigger] picked@[x]) < flags.len() && flags@[picked@[x] as int],
        forall|x: int, y: int|
            0 <= x < y < picked.len() ==> (#[trigger] picked@[x]) < (#[trigger] picked@[y]),
        forall|idx: int| 0 <= idx < flags.len() && #[trigger] flags@[idx] ==> picked_has(picked@, idx),
{
    let mut picked: Vec<usize> = Vec::new();
    let mut j: usize = 0;
    while j < flags.len()
        invariant
            j <= flags.len(),
            forall|x: int|
                0 <= x < picked.len() ==> (#[trigger] picked@[x]) < j && flags@[picked@[x] as int],
            forall|x: int, y: int|
                0 <= x < y < picked.len() ==> (#[trigger] picked@[x]) < (#[trigger] picked@[y]),
            forall|idx: int| 0 <= idx < j && #[trigger] flags@[idx] ==> picked_has(picked@, idx),
        decreases flags.len() - j,
    {
        if flags[j] {
            let ghost before = picked@;
            picked.push(j);
            proof {
                assert(picked@[before.len() as int] == j);
                assert forall|idx: int| 0 <= idx < j + 1 && #[trigger] flags@[idx] implies picked_has(
                    picked@,
                    idx,
                ) by {
                    if idx < j {
                        assert(picked_has(before, idx));
                        let x = choose|x: int| 0 <= x < before.len() && #[trigger] before[x] == idx;
                        assert(picked@[x] == idx);
                    }
                }
            }
        }
        j += 1;
    }
    picked
}

} // verus!
