use vstd::prelude::*;
use vstd::slice::slice_subrange;
use crate::anchor::{lemma_search_result_bounds, search_result, search_subsequence};
use crate::laws::lemma_script_round_trip;
use crate::patch::{
    all_effective, faithful, push_run, source_of, tagged, target_of, Action, Patch,
};

verus! {

/// The edit script from `v1` to `v2`.
///
/// One search step is made on the two sequences. While it leaves something of
/// both, the script goes on with the edit script of what is left. Once one of
/// them is used up, what is left of `v1` is removed, then what is left of `v2`
/// is added.
pub open spec fn edit_script<T>(v1: Seq<T>, v2: Seq<T>) -> Seq<Patch<T>>
    decreases v1.len() + v2.len(),
    via edit_script_decreases::<T>
{
    let (delta, used1, used2) = search_result(v1, v2);
    let rest1 = v1.subrange(used1, v1.len() as int);
    let rest2 = v2.subrange(used2, v2.len() as int);
    if rest1.len() == 0 || rest2.len() == 0 {
        delta + tagged(rest1, Action::Remove) + tagged(rest2, Action::Add)
    } else {
        delta + edit_script(rest1, rest2)
    }
}

#[via_fn]
proof fn edit_script_decreases<T>(v1: Seq<T>, v2: Seq<T>) {
    lemma_search_result_bounds(v1, v2);
}

/// Computes the edit script from `v1` to `v2`: the patches that, read in
/// order, keep, add and remove elements so that `v1` becomes `v2`.
pub fn edit_distance<T: PartialEq + Clone>(v1: &[T], v2: &[T]) -> (patches: Vec<Patch<T>>)
    requires
        faithful::<T>(),
    ensures
        patches@ == edit_script(v1@, v2@),
        source_of(patches@) == v1@,
        target_of(patches@) == v2@,
        all_effective(patches@),
{
    let mut patches: Vec<Patch<T>> = Vec::new();
    let n1: usize = v1.len();
    let n2: usize = v2.len();
    let mut start1: usize = 0;
    let mut start2: usize = 0;
    assert(v1@.subrange(0, n1 as int) =~= v1@);
    assert(v2@.subrange(0, n2 as int) =~= v2@);
    loop
        invariant_except_break
            patches@ + edit_script(
                v1@.subrange(start1 as int, n1 as int),
                v2@.subrange(start2 as int, n2 as int),
            ) == edit_script(v1@, v2@),
        invariant
            faithful::<T>(),
            n1 == v1@.len(),
            n2 == v2@.len(),
            start1 <= n1,
            start2 <= n2,
        ensures
            patches@ + tagged(v1@.subrange(start1 as int, n1 as int), Action::Remove) + tagged(
                v2@.subrange(start2 as int, n2 as int),
                Action::Add,
            ) == edit_script(v1@, v2@),
        decreases (n1 - start1) + (n2 - start2),
    {
        let ghost rest1 = v1@.subrange(start1 as int, n1 as int);
        let ghost rest2 = v2@.subrange(start2 as int, n2 as int);
        let (mut delta, end1, end2) = search_subsequence(
            slice_subrange(v1, start1, n1),
            slice_subrange(v2, start2, n2),
        );
        proof {
            assert(rest1.subrange(end1 as int, rest1.len() as int) =~= v1@.subrange(
                start1 + end1,
                n1 as int,
            ));
            assert(rest2.subrange(end2 as int, rest2.len() as int) =~= v2@.subrange(
                start2 + end2,
                n2 as int,
            ));
        }
        patches.append(&mut delta);
        start1 += end1;
        start2 += end2;
        if start1 >= n1 {
            break;
        }
        if start2 >= n2 {
            break;
        }
    }
    push_run(&mut patches, v1, start1, n1, Action::Remove);
    push_run(&mut patches, v2, start2, n2, Action::Add);
    proof {
        lemma_script_round_trip(v1@, v2@);
    }
    patches
}

} // verus!
