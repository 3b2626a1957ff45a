//! A closure that is asked about one element after the other.
use vstd::prelude::*;

verus! {

/// A closure that says which elements to keep, with the record of the calls that
/// were made of it.
///
/// A closure may answer the same question differently the next time, so an
/// answer counts for the one call that gave it.
pub struct Picker<F> {
    f: F,
    calls: Ghost<Seq<(u32, bool)>>,
}

impl<F: FnMut(u32) -> bool> Picker<F> {
    /// The closure.
    pub closed spec fn closure(self) -> F {
        self.f
    }

    /// The calls so far, from the first to the last: each with the value that the
    /// closure was asked about and its answer.
    pub closed spec fn calls(self) -> Seq<(u32, bool)> {
        self.calls@
    }

    /// A picker for `f`, which has not been asked yet.
    pub(super) fn new(f: F) -> (picker: Self)
        ensures
            picker.closure() == f,
            picker.calls() == Seq::<(u32, bool)>::empty(),
    {
        Picker { f, calls: Ghost(Seq::empty()) }
    }

    /// Asks the closure about `v`: one more call.
    pub(super) fn ask(&mut self, v: u32) -> (answer: bool)
        requires
            call_requires(old(self).closure(), (v,)),
        ensures
            call_ensures(old(self).closure(), (v,), answer),
            final(self).closure() == old(self).closure(),
            final(self).calls() == old(self).calls().push((v, answer)),
    {
        let answer: bool = (self.f)(v);
        self.calls = Ghost(self.calls@.push((v, answer)));
        answer
    }
}

} // verus!
