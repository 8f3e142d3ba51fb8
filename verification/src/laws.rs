use vstd::prelude::*;
use crate::anchor::{
    anchor_of, has_anchor, is_anchor, lemma_anchor_unique, lemma_search_result_bounds,
    search_result,
};
use crate::distance::edit_script;
use crate::patch::{
    all_effective, keep_pred, source_of, source_pred, tagged, target_of, target_pred, Action, Patch,
};

verus! {

proof fn lemma_filter_all<A>(s: Seq<A>, pred: spec_fn(A) -> bool)
    requires
        forall|i: int| 0 <= i < s.len() ==> pred(#[trigger] s[i]),
    ensures
        s.filter(pred) == s,
    decreases s.len(),
{
    reveal(Seq::filter);
    if s.len() > 0 {
        lemma_filter_all(s.drop_last(), pred);
    }
}

proof fn lemma_filter_none<A>(s: Seq<A>, pred: spec_fn(A) -> bool)
    requires
        forall|i: int| 0 <= i < s.len() ==> !pred(#[trigger] s[i]),
    ensures
        s.filter(pred) == Seq::<A>::empty(),
    decreases s.len(),
{
    reveal(Seq::filter);
    if s.len() > 0 {
        lemma_filter_none(s.drop_last(), pred);
    }
}

/// A run of kept elements stands in both sequences, a run of removed ones in
/// the source only, a run of added ones in the target only.
pub proof fn lemma_run_round_trip<T>(s: Seq<T>, action: Action)
    ensures
        source_of(tagged(s, action)) == if action == Action::Keep || action == Action::Remove {
            s
        } else {
            Seq::<T>::empty()
        },
        target_of(tagged(s, action)) == if action == Action::Keep || action == Action::Add {
            s
        } else {
            Seq::<T>::empty()
        },
{
    let run = tagged(s, action);
    if action == Action::Keep || action == Action::Remove {
        lemma_filter_all(run, source_pred());
    } else {
        lemma_filter_none(run, source_pred());
    }
    if action == Action::Keep || action == Action::Add {
        lemma_filter_all(run, target_pred());
    } else {
        lemma_filter_none(run, target_pred());
    }
}

/// The source and the target of two scripts in a row are the sources and the
/// targets in a row.
pub proof fn lemma_concat_round_trip<T>(x: Seq<Patch<T>>, y: Seq<Patch<T>>)
    ensures
        source_of(x + y) == source_of(x) + source_of(y),
        target_of(x + y) == target_of(x) + target_of(y),
{
    Seq::filter_distributes_over_add(x, y, source_pred());
    Seq::filter_distributes_over_add(x, y, target_pred());
}

/// The patches of one search step rebuild the part of each sequence that the
/// step accounts for, and hold no placeholder.
pub proof fn lemma_step_round_trip<T>(a: Seq<T>, b: Seq<T>)
    ensures
        source_of(search_result(a, b).0) == a.subrange(0, search_result(a, b).1),
        target_of(search_result(a, b).0) == b.subrange(0, search_result(a, b).2),
        all_effective(search_result(a, b).0),
{
    if a.len() == 0 {
        lemma_run_round_trip(b, Action::Add);
    } else if b.len() > 0 && has_anchor(a, b) {
        let (s, len, p) = anchor_of(a, b);
        assert(is_anchor(a, b, s, len, p));
        let adds = tagged(b.subrange(0, p), Action::Add);
        let removes = tagged(a.subrange(0, s), Action::Remove);
        let keeps = tagged(a.subrange(s, s + len), Action::Keep);
        lemma_run_round_trip(b.subrange(0, p), Action::Add);
        lemma_run_round_trip(a.subrange(0, s), Action::Remove);
        lemma_run_round_trip(a.subrange(s, s + len), Action::Keep);
        lemma_concat_round_trip(adds, removes);
        lemma_concat_round_trip(adds + removes, keeps);
    } else {
        lemma_run_round_trip(a, Action::Remove);
    }
}

/// Two scripts in a row rebuild the two parts of a sequence in a row.
proof fn lemma_join<T>(
    head: Seq<Patch<T>>,
    tail: Seq<Patch<T>>,
    v1: Seq<T>,
    used1: int,
    v2: Seq<T>,
    used2: int,
)
    requires
        0 <= used1 <= v1.len(),
        0 <= used2 <= v2.len(),
        source_of(head) == v1.subrange(0, used1),
        target_of(head) == v2.subrange(0, used2),
        source_of(tail) == v1.subrange(used1, v1.len() as int),
        target_of(tail) == v2.subrange(used2, v2.len() as int),
        all_effective(head),
        all_effective(tail),
    ensures
        source_of(head + tail) == v1,
        target_of(head + tail) == v2,
        all_effective(head + tail),
{
    lemma_concat_round_trip(head, tail);
}

/// What is left once one side is used up rebuilds what is left of both.
proof fn lemma_flush_round_trip<T>(rest1: Seq<T>, rest2: Seq<T>)
    ensures
        source_of(tagged(rest1, Action::Remove) + tagged(rest2, Action::Add)) == rest1,
        target_of(tagged(rest1, Action::Remove) + tagged(rest2, Action::Add)) == rest2,
        all_effective(tagged(rest1, Action::Remove) + tagged(rest2, Action::Add)),
{
    lemma_run_round_trip(rest1, Action::Remove);
    lemma_run_round_trip(rest2, Action::Add);
    lemma_concat_round_trip(tagged(rest1, Action::Remove), tagged(rest2, Action::Add));
}

/// Read by its kept and removed patches, in order, the edit script from `v1`
/// to `v2` is `v1`; read by its kept and added patches, it is `v2`. No patch
/// of it is a placeholder.
pub proof fn lemma_script_round_trip<T>(v1: Seq<T>, v2: Seq<T>)
    ensures
        source_of(edit_script(v1, v2)) == v1,
        target_of(edit_script(v1, v2)) == v2,
        all_effective(edit_script(v1, v2)),
    decreases v1.len() + v2.len(),
{
    let step = search_result(v1, v2);
    let rest1 = v1.subrange(step.1, v1.len() as int);
    let rest2 = v2.subrange(step.2, v2.len() as int);
    lemma_search_result_bounds(v1, v2);
    lemma_step_round_trip(v1, v2);
    if rest1.len() == 0 || rest2.len() == 0 {
        let tail = tagged(rest1, Action::Remove) + tagged(rest2, Action::Add);
        lemma_flush_round_trip(rest1, rest2);
        lemma_join(step.0, tail, v1, step.1, v2, step.2);
    } else {
        let tail = edit_script(rest1, rest2);
        lemma_script_round_trip(rest1, rest2);
        lemma_join(step.0, tail, v1, step.1, v2, step.2);
    }
}

/// The edit script from a sequence to itself keeps every element, in order,
/// and does nothing else.
pub proof fn lemma_script_of_same<T>(v: Seq<T>)
    ensures
        edit_script(v, v) == tagged(v, Action::Keep),
{
    let n = v.len() as int;
    if n > 0 {
        assert(is_anchor(v, v, 0, n, 0));
        lemma_anchor_unique(v, v, 0, n, 0);
    }
}

/// The edit script from the empty sequence adds every element of the target,
/// in order, and does nothing else.
pub proof fn lemma_script_from_empty<T>(v2: Seq<T>)
    ensures
        edit_script(Seq::<T>::empty(), v2) == tagged(v2, Action::Add),
{
}

/// The edit script to the empty sequence removes every element of the source,
/// in order, and does nothing else.
pub proof fn lemma_script_to_empty<T>(v1: Seq<T>)
    ensures
        edit_script(v1, Seq::<T>::empty()) == tagged(v1, Action::Remove),
{
}

/// Where the two sequences have no element in common, the edit script removes
/// all of the source, then adds all of the target.
pub proof fn lemma_script_of_disjoint<T>(v1: Seq<T>, v2: Seq<T>)
    requires
        forall|i: int, j: int| 0 <= i < v1.len() && 0 <= j < v2.len() ==> v1[i] != v2[j],
    ensures
        edit_script(v1, v2) == tagged(v1, Action::Remove) + tagged(v2, Action::Add),
{
    if v1.len() == 0 {
        lemma_script_from_empty(v2);
    } else if v2.len() == 0 {
        lemma_script_to_empty(v1);
    } else {
        assert forall|s: int, len: int, p: int| !is_anchor(v1, v2, s, len, p) by {
            if is_anchor(v1, v2, s, len, p) {
                assert(v1.subrange(s, s + len)[0] == v2.subrange(p, p + len)[0]);
            }
        }
    }
}

/// The edit script is a function of what the two sequences hold: from equal
/// sequences come equal scripts, patch by patch.
pub proof fn lemma_script_deterministic<T>(v1: Seq<T>, v2: Seq<T>, w1: Seq<T>, w2: Seq<T>)
    requires
        v1.len() == w1.len(),
        v2.len() == w2.len(),
        forall|i: int| 0 <= i < v1.len() ==> v1[i] == w1[i],
        forall|i: int| 0 <= i < v2.len() ==> v2[i] == w2[i],
    ensures
        edit_script(v1, v2) == edit_script(w1, w2),
{
    assert(v1 =~= w1);
    assert(v2 =~= w2);
}

/// In a script without placeholders every patch stands for an element of the
/// source, of the target, or, where it keeps, of both.
proof fn lemma_count_patches<T>(script: Seq<Patch<T>>)
    requires
        all_effective(script),
    ensures
        script.len() + script.filter(keep_pred()).len() == script.filter(source_pred()).len()
            + script.filter(target_pred()).len(),
    decreases script.len(),
{
    reveal(Seq::filter);
    if script.len() > 0 {
        lemma_count_patches(script.drop_last());
    }
}

/// Every element of the two sequences stands in exactly one patch of the edit
/// script, but for the kept ones, which stand once for both: the script is as
/// long as the two sequences together, less the kept patches.
pub proof fn lemma_script_len<T>(v1: Seq<T>, v2: Seq<T>)
    ensures
        edit_script(v1, v2).len() + edit_script(v1, v2).filter(keep_pred()).len() == v1.len()
            + v2.len(),
        edit_script(v1, v2).len() <= v1.len() + v2.len(),
{
    lemma_script_round_trip(v1, v2);
    lemma_count_patches(edit_script(v1, v2));
}

} // verus!
