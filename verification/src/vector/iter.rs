//! Iterators over a vector: one that borrows it and one that owns it.
use vstd::prelude::*;

use crate::model::lookup;
use crate::vector::CompactVec;

verus! {

/// Iterator over the elements of a borrowed [`CompactVec`], from either end.
///
/// In contracts it is seen as the sequence of the elements that it has yet to
/// yield.
pub struct Iter<'a> {
    cv: &'a CompactVec,
    start: usize,
    end: usize,
}

impl<'a> View for Iter<'a> {
    type V = Seq<u32>;

    /// The elements that are left, in order.
    closed spec fn view(&self) -> Seq<u32> {
        self.cv@.subrange(self.start as int, self.end as int)
    }
}

impl<'a> Iter<'a> {
    /// What holds of every iterator at all times.
    #[verifier::type_invariant]
    pub closed spec fn wf(self) -> bool {
        self.start <= self.end <= self.cv@.len()
    }
}

impl<'a> Iterator for Iter<'a> {
    type Item = u32;

    /// Yields the first of the elements that are left.
    fn next(&mut self) -> (r: Option<u32>)
        ensures
            r == lookup(old(self)@, 0),
            final(self)@ == if old(self)@.len() > 0 {
                old(self)@.drop_first()
            } else {
                old(self)@
            },
    {
        proof {
            use_type_invariant(&*self);
        }
        if self.start >= self.end {
            return None;
        }
        let v: u32 = self.cv.read_at(self.start);
        self.start = self.start + 1;
        assert(self@ =~= old(self)@.drop_first());
        Some(v)
    }

    /// How many elements are left, as lower and as upper bound.
    fn size_hint(&self) -> (r: (usize, Option<usize>))
        ensures
            r.0 == self@.len(),
            r.1 == Some(r.0),
    {
        proof {
            use_type_invariant(self);
        }
        let rem: usize = self.end - self.start;
        (rem, Some(rem))
    }
}

impl<'a> vstd::std_specs::iter::IteratorSpecImpl for Iter<'a> {
    open spec fn obeys_prophetic_iter_laws(&self) -> bool {
        true
    }

    open spec fn remaining(&self) -> Seq<u32> {
        self@
    }

    open spec fn will_return_none(&self) -> bool {
        true
    }

    open spec fn decrease(&self) -> Option<nat> {
        Some(self@.len())
    }

    open spec fn initial_value_relation(&self, init: &Self) -> bool {
        self@ == init@
    }

    open spec fn peek(&self, index: int) -> Option<u32> {
        lookup(self@, index)
    }
}

impl<'a> DoubleEndedIterator for Iter<'a> {
    /// Yields the last of the elements that are left.
    fn next_back(&mut self) -> (r: Option<u32>)
        ensures
            r == lookup(old(self)@, old(self)@.len() - 1),
            final(self)@ == if old(self)@.len() > 0 {
                old(self)@.drop_last()
            } else {
                old(self)@
            },
    {
        proof {
            use_type_invariant(&*self);
        }
        if self.start >= self.end {
            return None;
        }
        self.end = self.end - 1;
        assert(self@ =~= old(self)@.drop_last());
        Some(self.cv.read_at(self.end))
    }
}

impl<'a> vstd::std_specs::iter::DoubleEndedIteratorSpecImpl for Iter<'a> {
    open spec fn peek_back(&self, index: int) -> Option<u32> {
        lookup(self@, self@.len() - 1 - index)
    }
}

impl<'a> ExactSizeIterator for Iter<'a> {

}

/// Iterator that owns a [`CompactVec`] and yields its elements, from either end.
///
/// In contracts it is seen as the sequence of the elements that it has yet to
/// yield.
pub struct IntoIter {
    cv: CompactVec,
    start: usize,
    end: usize,
}

impl View for IntoIter {
    type V = Seq<u32>;

    /// The elements that are left, in order.
    closed spec fn view(&self) -> Seq<u32> {
        self.cv@.subrange(self.start as int, self.end as int)
    }
}

impl IntoIter {
    /// What holds of every iterator at all times.
    #[verifier::type_invariant]
    pub closed spec fn wf(self) -> bool {
        self.start <= self.end <= self.cv@.len()
    }
}

impl Iterator for IntoIter {
    type Item = u32;

    /// Yields the first of the elements that are left.
    fn next(&mut self) -> (r: Option<u32>)
        ensures
            r == lookup(old(self)@, 0),
            final(self)@ == if old(self)@.len() > 0 {
                old(self)@.drop_first()
            } else {
                old(self)@
            },
    {
        proof {
            use_type_invariant(&*self);
        }
        if self.start >= self.end {
            return None;
        }
        let v: u32 = self.cv.read_at(self.start);
        self.start = self.start + 1;
        assert(self@ =~= old(self)@.drop_first());
        Some(v)
    }

    /// How many elements are left, as lower and as upper bound.
    fn size_hint(&self) -> (r: (usize, Option<usize>))
        ensures
            r.0 == self@.len(),
            r.1 == Some(r.0),
    {
        proof {
            use_type_invariant(self);
        }
        let rem: usize = self.end - self.start;
        (rem, Some(rem))
    }
}

impl vstd::std_specs::iter::IteratorSpecImpl for IntoIter {
    open spec fn obeys_prophetic_iter_laws(&self) -> bool {
        true
    }

    open spec fn remaining(&self) -> Seq<u32> {
        self@
    }

    open spec fn will_return_none(&self) -> bool {
        true
    }

    open spec fn decrease(&self) -> Option<nat> {
        Some(self@.len())
    }

    open spec fn initial_value_relation(&self, init: &Self) -> bool {
        self@ == init@
    }

    open spec fn peek(&self, index: int) -> Option<u32> {
        lookup(self@, index)
    }
}

impl DoubleEndedIterator for IntoIter {
    /// Yields the last of the elements that are left.
    fn next_back(&mut self) -> (r: Option<u32>)
        ensures
            r == lookup(old(self)@, old(self)@.len() - 1),
            final(self)@ == if old(self)@.len() > 0 {
                old(self)@.drop_last()
            } else {
                old(self)@
            },
    {
        proof {
            use_type_invariant(&*self);
        }
        if self.start >= self.end {
            return None;
        }
        self.end = self.end - 1;
        assert(self@ =~= old(self)@.drop_last());
        Some(self.cv.read_at(self.end))
    }
}

impl vstd::std_specs::iter::DoubleEndedIteratorSpecImpl for IntoIter {
    open spec fn peek_back(&self, index: int) -> Option<u32> {
        lookup(self@, self@.len() - 1 - index)
    }
}

impl ExactSizeIterator for IntoIter {

}

impl CompactVec {
    /// An iterator over the elements, from the first to the last.
    pub fn iter(&self) -> (it: Iter<'_>)
        ensures
            it@ == self@,
    {
        let it = Iter { cv: self, start: 0, end: self.len };
        assert(it@ =~= self@);
        it
    }
}

impl<'a> IntoIterator for &'a CompactVec {
    type Item = u32;

    type IntoIter = Iter<'a>;

    fn into_iter(self) -> (it: Iter<'a>)
        ensures
            it@ == self@,
    {
        self.iter()
    }
}

impl IntoIterator for CompactVec {
    type Item = u32;

    type IntoIter = IntoIter;

    /// Turns the vector into an iterator over its elements.
    fn into_iter(self) -> (it: IntoIter)
        ensures
            it@ == self@,
    {
        let end: usize = self.len;
        let it = IntoIter { cv: self, start: 0, end };
        assert(it@ =~= self@);
        it
    }
}

} // verus!
