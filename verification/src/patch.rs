use vstd::prelude::*;
use vstd::std_specs::cmp::PartialEqSpec;

verus! {

/// What an edit script does with one element.
#[derive(Clone, Copy, Debug, PartialEq, Eq, Structural)]
pub enum Action {
    /// No operation: a placeholder that no edit script holds.
    Nothing,
    /// The element stands in both sequences.
    Keep,
    /// The element stands in the target only.
    Add,
    /// The element stands in the source only.
    Remove,
}

/// One element with the operation applied to it.
#[derive(Debug, PartialEq)]
pub struct Patch<T> {
    pub value: T,
    pub action: Action,
}

impl<T> Patch<T> {
    /// Tags `ch` with `action`.
    pub fn new(ch: T, action: Action) -> (patch: Self)
        ensures
            patch == (Patch { value: ch, action }),
    {
        Patch { value: ch, action }
    }
}

/// The elements of `s`, in order, each tagged with `action`.
pub open spec fn tagged<T>(s: Seq<T>, action: Action) -> Seq<Patch<T>> {
    Seq::new(s.len(), |i: int| Patch { value: s[i], action })
}

/// The patch stands for an element of the source: it is kept or removed.
pub open spec fn in_source<T>(patch: Patch<T>) -> bool {
    patch.action == Action::Keep || patch.action == Action::Remove
}

/// The patch stands for an element of the target: it is kept or added.
pub open spec fn in_target<T>(patch: Patch<T>) -> bool {
    patch.action == Action::Keep || patch.action == Action::Add
}

/// `in_source` as a predicate to filter by.
pub open spec fn source_pred<T>() -> spec_fn(Patch<T>) -> bool {
    |patch: Patch<T>| in_source(patch)
}

/// `in_target` as a predicate to filter by.
pub open spec fn target_pred<T>() -> spec_fn(Patch<T>) -> bool {
    |patch: Patch<T>| in_target(patch)
}

/// The patch keeps its element.
pub open spec fn keep_pred<T>() -> spec_fn(Patch<T>) -> bool {
    |patch: Patch<T>| patch.action == Action::Keep
}

/// The value of a patch, as a function to map by.
pub open spec fn value_of<T>() -> spec_fn(Patch<T>) -> T {
    |patch: Patch<T>| patch.value
}

/// The sequence that `script` starts from: the values of its kept and removed
/// patches, in order.
pub open spec fn source_of<T>(script: Seq<Patch<T>>) -> Seq<T> {
    script.filter(source_pred()).map_values(value_of())
}

/// The sequence that `script` arrives at: the values of its kept and added
/// patches, in order.
pub open spec fn target_of<T>(script: Seq<Patch<T>>) -> Seq<T> {
    script.filter(target_pred()).map_values(value_of())
}

/// Every patch of `script` keeps, adds or removes: none is a placeholder.
pub open spec fn all_effective<T>(script: Seq<Patch<T>>) -> bool {
    forall|i: int| 0 <= i < script.len() ==> (#[trigger] script[i]).action != Action::Nothing
}

/// Comparison on `T` is mathematical equality: `==` holds of two values
/// exactly where they are the same value.
pub open spec fn faithful_eq<T: PartialEq>() -> bool {
    &&& T::obeys_eq_spec()
    &&& forall|x: T, y: T| #[trigger] x.eq_spec(&y) <==> x == y
}

/// Duplication on `T` keeps the value: a clone equals what it was made from.
pub open spec fn faithful_clone<T: Clone>() -> bool {
    forall|x: T, y: T| #[trigger] cloned(x, y) ==> x == y
}

/// Comparison and duplication on `T` both agree with mathematical equality,
/// as they do on the integer types and on `bool`.
pub open spec fn faithful<T: PartialEq + Clone>() -> bool {
    faithful_eq::<T>() && faithful_clone::<T>()
}

/// Appends to `out` the elements `src[from..to]`, in order, each tagged with
/// `action`.
pub fn push_run<T: Clone>(
    out: &mut Vec<Patch<T>>,
    src: &[T],
    from: usize,
    to: usize,
    action: Action,
)
    requires
        faithful_clone::<T>(),
        from <= to <= src@.len(),
    ensures
        final(out)@ == old(out)@ + tagged(src@.subrange(from as int, to as int), action),
{
    let mut i: usize = from;
    while i < to
        invariant
            faithful_clone::<T>(),
            from <= i <= to <= src@.len(),
            out@ == old(out)@ + tagged(src@.subrange(from as int, i as int), action),
        decreases to - i,
    {
        let value = src[i].clone();
        assert(cloned(src@[i as int], value));
        out.push(Patch::new(value, action));
        i += 1;
    }
}

} // verus!
