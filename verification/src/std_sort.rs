//! What the standard library's documentation says of its slice sorts.
use vstd::prelude::*;
use vstd::std_specs::cmp::OrdSpec;

verus! {

/// The items of `s` that compare equal to `x`, in the order in which they stand.
pub open spec fn run_of<E: Ord>(s: Seq<E>, x: E) -> Seq<E> {
    s.filter(|e: E| e.cmp_spec(&x) == core::cmp::Ordering::Equal)
}

/// No item of `s` is greater than one that stands after it.
pub open spec fn ascending<E: Ord>(s: Seq<E>) -> bool {
    forall|i: int, j: int|
        #![trigger s[i], s[j]]
        0 <= i < j < s.len() ==> s[i].cmp_spec(&s[j]) != core::cmp::Ordering::Greater
}

/// `<[T]>::sort_unstable`: for items with a total order, the slice afterwards
/// holds the same items, as often as before, in ascending order.
pub assume_specification<T: Ord>[ <[T]>::sort_unstable ](s: &mut [T])
    requires
        vstd::laws_cmp::obeys_cmp::<T>(),
    ensures
        final(s)@.to_multiset() == old(s)@.to_multiset(),
        ascending(final(s)@),
;

/// `<[T]>::sort`: for items with a total order, the slice afterwards holds the
/// same items, as often as before, in ascending order, and items that compare
/// equal keep their order.
pub assume_specification<T: Ord>[ <[T]>::sort ](s: &mut [T])
    requires
        vstd::laws_cmp::obeys_cmp::<T>(),
    ensures
        final(s)@.to_multiset() == old(s)@.to_multiset(),
        ascending(final(s)@),
        forall|x: T| #[trigger] run_of(final(s)@, x) == run_of(old(s)@, x),
;

/// The integers that the library sorts have a total order.
pub proof fn lemma_integers_are_ordered()
    ensures
        vstd::laws_cmp::obeys_cmp::<u8>(),
        vstd::laws_cmp::obeys_cmp::<u32>(),
{
    broadcast use vstd::laws_cmp::group_laws_cmp;

}

/// On `u8`, ascending means that no number is above a later one.
pub proof fn lemma_ascending_u8(s: Seq<u8>)
    requires
        ascending(s),
    ensures
        forall|i: int, j: int| #![trigger s[i], s[j]] 0 <= i < j < s.len() ==> s[i] <= s[j],
{
}

/// On `u32`, ascending means that no number is above a later one.
pub proof fn lemma_ascending_u32(s: Seq<u32>)
    requires
        ascending(s),
    ensures
        crate::model::sorted(s),
{
}

} // verus!
