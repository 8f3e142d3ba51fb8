use vstd::prelude::*;
use vstd::std_specs::cmp::PartialEqSpec;
use crate::patch::{faithful, faithful_eq, push_run, tagged, Action, Patch};

verus! {

/// The block of `len` elements of `a` from `s` and the window of `len`
/// elements of `b` from `p` are both in bounds and hold the same elements.
pub open spec fn matches_at<T>(a: Seq<T>, s: int, len: int, b: Seq<T>, p: int) -> bool {
    &&& 0 <= s
    &&& 0 <= p
    &&& 0 <= len
    &&& s + len <= a.len()
    &&& p + len <= b.len()
    &&& a.subrange(s, s + len) == b.subrange(p, p + len)
}

/// The block of `len` elements of `a` from `s` stands somewhere in `b`.
pub open spec fn occurs<T>(a: Seq<T>, s: int, len: int, b: Seq<T>) -> bool {
    exists|p: int| matches_at(a, s, len, b, p)
}

/// The search has passed every candidate that comes before `(s, len)`: no
/// block of `a` that starts before `s`, and none from `s` that is longer than
/// `len`, stands anywhere in `b`.
pub open spec fn none_before<T>(a: Seq<T>, b: Seq<T>, s: int, len: int) -> bool {
    &&& forall|l: int| len < l <= a.len() - s ==> !#[trigger] occurs(a, s, l, b)
    &&& forall|t: int, l: int|
        0 <= t < s && 1 <= l <= a.len() - t ==> !#[trigger] occurs(a, t, l, b)
}

/// `(s, len, p)` is the anchor of `a` in `b`: a common block that is not
/// empty, with the earliest start `s` in `a` at which any block occurs in `b`,
/// the greatest length `len` that occurs from that start, and the earliest
/// place `p` in `b` at which that block stands.
pub open spec fn is_anchor<T>(a: Seq<T>, b: Seq<T>, s: int, len: int, p: int) -> bool {
    &&& 1 <= len
    &&& matches_at(a, s, len, b, p)
    &&& forall|q: int| 0 <= q < p ==> !#[trigger] matches_at(a, s, len, b, q)
    &&& none_before(a, b, s, len)
}

/// `a` and `b` share a block that is not empty.
pub open spec fn has_anchor<T>(a: Seq<T>, b: Seq<T>) -> bool {
    exists|s: int, len: int, p: int| is_anchor(a, b, s, len, p)
}

/// The anchor of `a` in `b` as `(s, len, p)`, where there is one.
pub open spec fn anchor_of<T>(a: Seq<T>, b: Seq<T>) -> (int, int, int) {
    choose|s: int, len: int, p: int| is_anchor(a, b, s, len, p)
}

/// What one search step yields on `a` and `b`: the patches up to the end of
/// the chosen block, and how many elements of `a` and of `b` they account for.
///
/// With `a` empty, all of `b` is added; with `b` empty, all of `a` is removed.
/// Otherwise, with the anchor `(s, len, p)`: `b[..p]` is added, `a[..s]` is
/// removed and `a[s..s + len]` is kept, in this order. Where the two share no
/// block, all of `a` is removed and nothing of `b` is accounted for.
pub open spec fn search_result<T>(a: Seq<T>, b: Seq<T>) -> (Seq<Patch<T>>, int, int) {
    if a.len() == 0 {
        (tagged(b, Action::Add), 0, b.len() as int)
    } else if b.len() == 0 {
        (tagged(a, Action::Remove), a.len() as int, 0)
    } else if has_anchor(a, b) {
        let (s, len, p) = anchor_of(a, b);
        (
            tagged(b.subrange(0, p), Action::Add) + tagged(a.subrange(0, s), Action::Remove)
                + tagged(a.subrange(s, s + len), Action::Keep),
            s + len,
            p + len,
        )
    } else {
        (tagged(a, Action::Remove), a.len() as int, 0)
    }
}

/// Two sequences have at most one anchor: the three choices that define it
/// leave nothing open, so a search step has one outcome.
pub proof fn lemma_anchor_unique<T>(a: Seq<T>, b: Seq<T>, s: int, len: int, p: int)
    requires
        is_anchor(a, b, s, len, p),
    ensures
        has_anchor(a, b),
        anchor_of(a, b) == (s, len, p),
{
    let (start, length, place) = anchor_of(a, b);
    assert(is_anchor(a, b, start, length, place));
    assert(occurs(a, s, len, b));
    assert(occurs(a, start, length, b));
}

/// A block that stands in `b` does so with each of its shorter beginnings.
proof fn lemma_shorter_occurs<T>(a: Seq<T>, b: Seq<T>, s: int, len: int, shorter: int)
    requires
        occurs(a, s, len, b),
        0 <= shorter <= len,
    ensures
        occurs(a, s, shorter, b),
{
    let p = choose|p: int| matches_at(a, s, len, b, p);
    let x = a.subrange(s, s + len);
    let y = b.subrange(p, p + len);
    assert(a.subrange(s, s + shorter) =~= x.subrange(0, shorter));
    assert(b.subrange(p, p + shorter) =~= y.subrange(0, shorter));
    assert(matches_at(a, s, shorter, b, p));
}

/// The earliest start at or before `s` from which one element of `a` stands
/// in `b`.
proof fn lemma_earliest_start<T>(a: Seq<T>, b: Seq<T>, s: int) -> (first: int)
    requires
        occurs(a, s, 1, b),
    ensures
        0 <= first <= s,
        occurs(a, first, 1, b),
        forall|t: int| 0 <= t < first ==> !#[trigger] occurs(a, t, 1, b),
    decreases s,
{
    let p = choose|p: int| matches_at(a, s, 1, b, p);
    assert(0 <= s) by {
        assert(matches_at(a, s, 1, b, p));
    }
    if exists|t: int| 0 <= t < s && #[trigger] occurs(a, t, 1, b) {
        let t = choose|t: int| 0 <= t < s && #[trigger] occurs(a, t, 1, b);
        lemma_earliest_start(a, b, t)
    } else {
        s
    }
}

/// The greatest length, at most `bound`, with which a block of `a` from `s`
/// stands in `b`.
proof fn lemma_greatest_len<T>(a: Seq<T>, b: Seq<T>, s: int, bound: int) -> (len: int)
    requires
        occurs(a, s, 1, b),
        1 <= bound,
    ensures
        1 <= len <= bound,
        occurs(a, s, len, b),
        forall|l: int| len < l <= bound ==> !#[trigger] occurs(a, s, l, b),
    decreases bound,
{
    if occurs(a, s, bound, b) {
        bound
    } else {
        lemma_greatest_len(a, b, s, bound - 1)
    }
}

/// The earliest place at or before `p` at which the block stands in `b`.
proof fn lemma_earliest_place<T>(a: Seq<T>, b: Seq<T>, s: int, len: int, p: int) -> (first: int)
    requires
        matches_at(a, s, len, b, p),
    ensures
        0 <= first <= p,
        matches_at(a, s, len, b, first),
        forall|q: int| 0 <= q < first ==> !#[trigger] matches_at(a, s, len, b, q),
    decreases p,
{
    if exists|q: int| 0 <= q < p && #[trigger] matches_at(a, s, len, b, q) {
        let q = choose|q: int| 0 <= q < p && #[trigger] matches_at(a, s, len, b, q);
        lemma_earliest_place(a, b, s, len, q)
    } else {
        p
    }
}

/// Two sequences that have an element in common have an anchor: a search
/// step falls back to removing all of the source only where nothing of it
/// stands in the target.
pub proof fn lemma_anchor_exists<T>(a: Seq<T>, b: Seq<T>, i: int, j: int)
    requires
        0 <= i < a.len(),
        0 <= j < b.len(),
        a[i] == b[j],
    ensures
        has_anchor(a, b),
{
    assert(a.subrange(i, i + 1) =~= b.subrange(j, j + 1));
    assert(matches_at(a, i, 1, b, j));
    let s = lemma_earliest_start(a, b, i);
    let len = lemma_greatest_len(a, b, s, a.len() - s);
    let some = choose|p: int| matches_at(a, s, len, b, p);
    let p = lemma_earliest_place(a, b, s, len, some);
    assert forall|t: int, l: int| 0 <= t < s && 1 <= l <= a.len() - t implies !#[trigger] occurs(
        a,
        t,
        l,
        b,
    ) by {
        if occurs(a, t, l, b) {
            lemma_shorter_occurs(a, b, t, l, 1);
        }
    }
    assert(is_anchor(a, b, s, len, p));
}

/// An anchor is a common block, inside both sequences: each of its elements
/// in `a` equals the element of `b` at the same distance from `p`.
pub proof fn lemma_anchor_is_common<T>(a: Seq<T>, b: Seq<T>, s: int, len: int, p: int)
    requires
        is_anchor(a, b, s, len, p),
    ensures
        0 <= s < a.len(),
        0 <= p < b.len(),
        1 <= len <= a.len() - s,
        len <= b.len() - p,
        forall|k: int| s <= k < s + len ==> #[trigger] a[k] == b[k - s + p],
{
    assert forall|k: int| s <= k < s + len implies #[trigger] a[k] == b[k - s + p] by {
        assert(a.subrange(s, s + len)[k - s] == b.subrange(p, p + len)[k - s]);
    }
}

/// A search step stays inside both sequences, and accounts for at least one
/// element unless both are empty.
pub proof fn lemma_search_result_bounds<T>(a: Seq<T>, b: Seq<T>)
    ensures
        0 <= search_result(a, b).1 <= a.len(),
        0 <= search_result(a, b).2 <= b.len(),
        a.len() + b.len() > 0 ==> search_result(a, b).1 + search_result(a, b).2 >= 1,
{
    if a.len() > 0 && b.len() > 0 && has_anchor(a, b) {
        let (s, len, p) = anchor_of(a, b);
        assert(is_anchor(a, b, s, len, p));
    }
}

/// Whether the block `a[s..s + len]` equals the window `b[p..p + len]`.
pub fn window_eq<T: PartialEq>(a: &[T], s: usize, len: usize, b: &[T], p: usize) -> (same: bool)
    requires
        faithful_eq::<T>(),
        s + len <= a@.len(),
        p + len <= b@.len(),
    ensures
        same == matches_at(a@, s as int, len as int, b@, p as int),
{
    let na: usize = a.len();
    let nb: usize = b.len();
    let mut k: usize = 0;
    while k < len
        invariant
            faithful_eq::<T>(),
            k <= len,
            na == a@.len(),
            nb == b@.len(),
            s + len <= na,
            p + len <= nb,
            a@.subrange(s as int, s + k) =~= b@.subrange(p as int, p + k),
        decreases len - k,
    {
        if !(a[s + k] == b[p + k]) {
            proof {
                let block = a@.subrange(s as int, s + len);
                let window = b@.subrange(p as int, p + len);
                assert(block[k as int] != window[k as int]);
            }
            return false;
        }
        k += 1;
    }
    true
}

/// The first place in `b`, from the left, at which the block `a[s..s + len]`
/// stands, or `None` where it stands nowhere in `b`. An empty block stands at
/// the start of any `b`.
pub fn find_window<T: PartialEq>(a: &[T], s: usize, len: usize, b: &[T]) -> (found: Option<usize>)
    requires
        faithful_eq::<T>(),
        s + len <= a@.len(),
    ensures
        match found {
            Some(p) => {
                &&& matches_at(a@, s as int, len as int, b@, p as int)
                &&& forall|q: int| 0 <= q < p ==> !#[trigger] matches_at(a@, s as int, len as int, b@, q)
            },
            None => !occurs(a@, s as int, len as int, b@),
        },
{
    if len == 0 {
        proof {
            assert(a@.subrange(s as int, s + len) =~= b@.subrange(0, 0 + len));
        }
        return Some(0);
    }
    if len > b.len() {
        return None;
    }
    let last: usize = b.len() - len;
    let mut p: usize = 0;
    while p <= last
        invariant
            faithful_eq::<T>(),
            1 <= len,
            s + len <= a@.len(),
            last + len == b@.len(),
            b@.len() <= usize::MAX,
            p <= last + 1,
            forall|q: int| 0 <= q < p ==> !#[trigger] matches_at(a@, s as int, len as int, b@, q),
        decreases last + 1 - p,
    {
        if window_eq(a, s, len, b, p) {
            return Some(p);
        }
        p += 1;
    }
    None
}

/// One search step on `v1` and `v2`: finds the anchor and returns the patches
/// that lead through it, with the number of elements of `v1` and of `v2` that
/// these patches account for.
pub fn search_subsequence<T: PartialEq + Clone>(v1: &[T], v2: &[T]) -> (found: (
    Vec<Patch<T>>,
    usize,
    usize,
))
    requires
        faithful::<T>(),
    ensures
        (found.0@, found.1 as int, found.2 as int) == search_result(v1@, v2@),
        found.1 <= v1@.len(),
        found.2 <= v2@.len(),
        v1@.len() + v2@.len() > 0 ==> found.1 + found.2 >= 1,
{
    proof {
        lemma_search_result_bounds(v1@, v2@);
    }
    let mut patches: Vec<Patch<T>> = Vec::new();
    let n1: usize = v1.len();
    let n2: usize = v2.len();
    if n1 == 0 {
        push_run(&mut patches, v2, 0, n2, Action::Add);
        assert(v2@.subrange(0, n2 as int) =~= v2@);
        return (patches, n1, n2);
    }
    if n2 == 0 {
        push_run(&mut patches, v1, 0, n1, Action::Remove);
        assert(v1@.subrange(0, n1 as int) =~= v1@);
        return (patches, n1, n2);
    }
    let mut len: usize = n1;
    let mut start: usize = 0;
    let mut place: Option<usize> = None;
    loop
        invariant_except_break
            start < n1,
            1 <= len <= n1 - start,
            place.is_none(),
            none_before(v1@, v2@, start as int, len as int),
        invariant
            faithful::<T>(),
            n1 == v1@.len(),
            n2 == v2@.len(),
        ensures
            match place {
                Some(p) => is_anchor(v1@, v2@, start as int, len as int, p as int),
                None => start == n1 && len == 0 && none_before(v1@, v2@, start as int, len as int),
            },
        decreases n1 - start, len,
    {
        place = find_window(v1, start, len, v2);
        if place.is_some() {
            break;
        }
        len -= 1;
        if len == 0 {
            start += 1;
            len = n1 - start;
            if len == 0 {
                break;
            }
        }
    }
    match place {
        Some(p) => {
            push_run(&mut patches, v2, 0, p, Action::Add);
            push_run(&mut patches, v1, 0, start, Action::Remove);
            push_run(&mut patches, v1, start, start + len, Action::Keep);
            proof {
                lemma_anchor_unique(v1@, v2@, start as int, len as int, p as int);
            }
            (patches, start + len, p + len)
        },
        None => {
            push_run(&mut patches, v1, 0, start, Action::Remove);
            proof {
                assert(v1@.subrange(0, n1 as int) =~= v1@);
                assert forall|s: int, l: int, p: int| !is_anchor(v1@, v2@, s, l, p) by {
                    if is_anchor(v1@, v2@, s, l, p) {
                        assert(occurs(v1@, s, l, v2@));
                    }
                }
            }
            (patches, start, 0)
        },
    }
}

} // verus!
