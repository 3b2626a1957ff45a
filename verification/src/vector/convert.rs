//! Copying, comparing, and conversion to and from other collections.
use vstd::prelude::*;
use vstd::std_specs::iter::IteratorSpec;

use crate::codec::{encode, lemma_slots_encode};
use crate::model::{
    alloc_fits, can_become, can_extend, doubled_to, lemma_doubled_to_bounds,
    lemma_doubled_to_step, lemma_modest, lemma_push_is_doubling, lemma_width_covering_append,
    lemma_width_covering_grows, vec_fits, width_covering,
};
use crate::vector::CompactVec;
use crate::width::BitWidth;

verus! {

impl CompactVec {
    /// Turns the vector into a `Vec<u32>` of its elements.
    pub fn to_vec(self) -> (values: Vec<u32>)
        requires
            vec_fits(self@.len() as int),
        ensures
            values@ == self@,
    {
        self.decoded()
    }

    /// Builds a vector of the elements of `v`, appended one after the other.
    pub fn from(v: Vec<u32>) -> (cv: Self)
        requires
            can_extend(0, BitWidth::U8, 0, v@),
        ensures
            cv@ == v@,
            cv.width() == width_covering(BitWidth::U8, v@),
            cv.capacity() == doubled_to(0, v@.len()),
    {
        CompactVec::from_iter(v.into_iter())
    }

    /// Builds a vector of what `iter` yields, appended one after the other.
    pub fn from_iter<I: Iterator<Item = u32>>(iter: I) -> (cv: Self)
        requires
            iter.obeys_prophetic_iter_laws(),
            iter.decrease() is Some,
            can_extend(0, BitWidth::U8, 0, iter.remaining()),
        ensures
            cv@ == iter.remaining(),
            cv.width() == width_covering(BitWidth::U8, iter.remaining()),
            cv.capacity() == doubled_to(0, iter.remaining().len()),
    {
        let mut cv = CompactVec::new();
        let ghost all = iter.remaining();
        cv.extend(iter);
        assert(cv@ =~= all);
        cv
    }

    /// Appends what `iter` yields, one value after the other.
    pub fn extend<I: Iterator<Item = u32>>(&mut self, iter: I)
        requires
            iter.obeys_prophetic_iter_laws(),
            iter.decrease() is Some,
            can_extend(
                old(self).capacity() as nat,
                old(self).width(),
                old(self)@.len(),
                iter.remaining(),
            ),
        ensures
            final(self)@ == old(self)@ + iter.remaining(),
            final(self).width() == width_covering(old(self).width(), iter.remaining()),
            final(self).capacity() == doubled_to(
                old(self).capacity() as nat,
                old(self)@.len() + iter.remaining().len(),
            ),
    {
        proof {
            use_type_invariant(&*self);
            self.lemma_wf();
        }
        let mut iter = iter;
        let ghost all = iter.remaining();
        let ghost mut done: Seq<u32> = Seq::empty();
        let ghost cap = self.capacity() as nat;
        let ghost width = self.width();
        let ghost end_cap = doubled_to(cap, self@.len() + all.len());
        let ghost end_width = width_covering(width, all);
        proof {
            lemma_modest(cap, self@.len() + all.len(), end_width, false);
        }
        assert(all =~= done + iter.remaining());
        assert(self@ =~= self@ + done);
        loop
            invariant_except_break
                iter.obeys_prophetic_iter_laws(),
                iter.decrease() is Some,
                all == done + iter.remaining(),
                cap == old(self).capacity(),
                width == old(self).width(),
                old(self)@.len() <= cap,
                end_cap == doubled_to(cap, old(self)@.len() + all.len()),
                end_width == width_covering(width, all),
                can_become(cap as int, width, end_cap as int, end_width),
            invariant
                self@ == old(self)@ + done,
                self.capacity() == doubled_to(cap, old(self)@.len() + done.len()),
                self.width() == width_covering(width, done),
            ensures
                all == done,
            decreases iter.decrease()->0,
        {
            let ghost left = iter.remaining();
            match iter.next() {
                Some(v) => {
                    let ghost more = done.push(v);
                    let ghost len = old(self)@.len();
                    proof {
                        assert(done + left =~= more + iter.remaining());
                        assert(more.drop_last() =~= done);
                        lemma_doubled_to_step(
                            cap,
                            len + done.len(),
                            len + more.len(),
                        );
                        lemma_doubled_to_bounds(cap, len + done.len());
                        lemma_doubled_to_bounds(cap, len + more.len());
                        lemma_push_is_doubling(
                            doubled_to(cap, len + done.len()),
                            len + done.len(),
                        );
                        lemma_doubled_to_step(cap, len + more.len(), len + all.len());
                        lemma_width_covering_append(width, more, iter.remaining());
                        lemma_width_covering_grows(
                            width_covering(width, more),
                            iter.remaining(),
                        );
                        lemma_width_covering_grows(width, done);
                        lemma_width_covering_grows(width, more);
                        assert(width_covering(width, more) == width_covering(width, done).wider(
                            BitWidth::width_for(v),
                        ));
                        lemma_smaller_fits(
                            doubled_to(cap, len + more.len()) as int,
                            width_covering(width, more),
                            end_cap as int,
                            end_width,
                        );
                    }
                    self.push(v);
                    proof {
                        assert(self@ =~= old(self)@ + more);
                        done = more;
                    }
                },
                None => {
                    assert(done + left =~= done);
                    break;
                },
            }
        }
    }
}

/// A buffer that is smaller in both respects can be allocated too.
proof fn lemma_smaller_fits(cap: int, w: BitWidth, end_cap: int, end_w: BitWidth)
    requires
        0 <= cap <= end_cap,
        w.at_most(end_w),
    ensures
        alloc_fits(end_cap, end_w) ==> alloc_fits(cap, w),
{
}

impl Clone for CompactVec {
    /// Copies the vector with its capacity and its width.
    fn clone(&self) -> (copy: Self)
        ensures
            copy@ == self@,
            copy.width() == self.width(),
            copy.capacity() == self.capacity(),
    {
        proof {
            use_type_invariant(self);
        }
        let buf = self.buf.clone();
        assert(buf@ =~= self.buf@);
        CompactVec { buf, len: self.len, cap: self.cap, width: self.width }
    }

    /// Becomes a copy of `source`. The buffer is kept where it has room and the
    /// same width; else it is replaced by one like that of `source`.
    fn clone_from(&mut self, source: &Self)
        ensures
            final(self)@ == source@,
            final(self).width() == source.width(),
            final(self).capacity() == if old(self).capacity() >= source@.len() && old(self).width()
                == source.width() {
                old(self).capacity()
            } else {
                source.capacity()
            },
    {
        if self.cap >= source.len && self.width == source.width {
            self.clear();
            self.append_bytes(source);
            assert(self@ =~= source@);
        } else {
            *self = source.clone();
        }
    }
}

impl Default for CompactVec {
    /// An empty vector.
    fn default() -> (cv: Self)
        ensures
            cv@ == Seq::<u32>::empty(),
            cv.capacity() == 0,
            cv.width() == BitWidth::U8,
    {
        CompactVec::new()
    }
}

impl PartialEq for CompactVec {
    /// Whether both hold the same elements; their widths may differ.
    fn eq(&self, other: &Self) -> (r: bool)
        ensures
            r == (self@ == other@),
    {
        if self.len != other.len {
            return false;
        }
        let n: usize = self.len;
        let mut i: usize = 0;
        while i < n
            invariant
                n == self@.len(),
                n == other@.len(),
                i <= n,
                forall|j: int| 0 <= j < i ==> self@[j] == other@[j],
            decreases n - i,
        {
            if self.read_at(i) != other.read_at(i) {
                return false;
            }
            i = i + 1;
        }
        assert(self@ =~= other@);
        true
    }
}

impl vstd::std_specs::cmp::PartialEqSpecImpl for CompactVec {
    open spec fn obeys_eq_spec() -> bool {
        true
    }

    open spec fn eq_spec(&self, other: &Self) -> bool {
        self@ == other@
    }
}

impl Eq for CompactVec {

}

impl PartialEq<Vec<u32>> for CompactVec {
    /// Whether both hold the same elements.
    fn eq(&self, other: &Vec<u32>) -> (r: bool)
        ensures
            r == (self@ == other@),
    {
        if self.len != other.len() {
            return false;
        }
        let n: usize = self.len;
        let mut i: usize = 0;
        while i < n
            invariant
                n == self@.len(),
                n == other@.len(),
                i <= n,
                forall|j: int| 0 <= j < i ==> self@[j] == other@[j],
            decreases n - i,
        {
            if self.read_at(i) != other[i] {
                return false;
            }
            i = i + 1;
        }
        assert(self@ =~= other@);
        true
    }
}

impl vstd::std_specs::cmp::PartialEqSpecImpl<Vec<u32>> for CompactVec {
    open spec fn obeys_eq_spec() -> bool {
        true
    }

    open spec fn eq_spec(&self, other: &Vec<u32>) -> bool {
        self@ == other@
    }
}

impl PartialEq<CompactVec> for Vec<u32> {
    /// Whether both hold the same elements.
    fn eq(&self, other: &CompactVec) -> (r: bool)
        ensures
            r == (self@ == other@),
    {
        *other == *self
    }
}

impl vstd::std_specs::cmp::PartialEqSpecImpl<CompactVec> for Vec<u32> {
    open spec fn obeys_eq_spec() -> bool {
        true
    }

    open spec fn eq_spec(&self, other: &CompactVec) -> bool {
        self@ == other@
    }
}

impl core::convert::From<CompactVec> for Vec<u32> {
    /// The elements as a `Vec<u32>`, which must be one that can be allocated.
    fn from(value: CompactVec) -> (values: Self)
        ensures
            values@ == value@,
    {
        value.decoded()
    }
}

impl vstd::std_specs::convert::FromSpecImpl<CompactVec> for Vec<u32> {
    open spec fn obeys_from_spec() -> bool {
        false
    }

    open spec fn from_spec(value: CompactVec) -> Self {
        choose|values: Vec<u32>| values@ == value@
    }
}

impl AsRef<[u8]> for CompactVec {
    /// The bytes of the elements: each in little-endian order at the current
    /// width, one after the other.
    fn as_ref(&self) -> (bytes: &[u8])
        ensures
            bytes@ == encode(self@, self.width()),
            bytes@.len() == self@.len() * self.width().elem_size(),
    {
        proof {
            use_type_invariant(self);
            self.width.lemma_bytes_for(self.len as int);
            lemma_slots_encode(self.buf@, self.width, self.len as nat);
        }
        let n: usize = self.byte_len();
        &self.buf.as_slice()[0..n]
    }
}

} // verus!
