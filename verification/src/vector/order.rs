//! Searching, sorting, and building from sorted input.
use vstd::prelude::*;
use vstd::std_specs::iter::IteratorSpec;

use crate::codec::all_fit;
use crate::model::{alloc_fits, search_outcome, sorted, vec_fits};
use crate::vector::CompactVec;
use crate::width::BitWidth;

verus! {

impl CompactVec {
    /// Searches for `value` by halving. On a sorted vector, `Ok` gives the place
    /// of an element that equals `value`, and `Err`, where there is none, the
    /// place at which it would have to be inserted. On any other vector the
    /// answer is still an index of `value`, or a place within the vector.
    pub fn binary_search(&self, value: u32) -> (r: Result<usize, usize>)
        ensures
            sorted(self@) ==> search_outcome(self@, value, r),
            r matches Ok(i) ==> i < self@.len() && self@[i as int] == value,
            r matches Err(i) ==> i <= self@.len(),
    {
        let n: usize = self.len;
        let mut lo: usize = 0;
        let mut hi: usize = n;
        while lo < hi
            invariant
                n == self@.len(),
                lo <= hi <= n,
                sorted(self@) ==> {
                    &&& forall|k: int| 0 <= k < lo ==> #[trigger] self@[k] < value
                    &&& forall|k: int| hi <= k < n ==> value < #[trigger] self@[k]
                },
            decreases hi - lo,
        {
            let mid: usize = lo + (hi - lo) / 2;
            let v: u32 = self.read_at(mid);
            if v == value {
                return Ok(mid);
            } else if v < value {
                lo = mid + 1;
            } else {
                hi = mid;
            }
        }
        Err(lo)
    }

    /// Sorts the elements in ascending order. Width and capacity stay. Bytes are
    /// sorted in place; wider elements go through a `Vec<u32>`.
    pub fn sort_unstable(&mut self)
        requires
            old(self)@.len() < 2 || old(self).width() == BitWidth::U8 || vec_fits(
                old(self)@.len() as int,
            ),
        ensures
            sorted(final(self)@),
            final(self)@.to_multiset() == old(self)@.to_multiset(),
            final(self).width() == old(self).width(),
            final(self).capacity() == old(self).capacity(),
    {
        self.sort_with(false);
    }

    /// Sorts the elements in ascending order with a stable algorithm. Width and
    /// capacity stay. Equal elements are equal numbers, so the outcome is the
    /// same as that of [`sort_unstable`](CompactVec::sort_unstable).
    pub fn sort(&mut self)
        requires
            old(self)@.len() < 2 || old(self).width() == BitWidth::U8 || vec_fits(
                old(self)@.len() as int,
            ),
        ensures
            sorted(final(self)@),
            final(self)@.to_multiset() == old(self)@.to_multiset(),
            final(self).width() == old(self).width(),
            final(self).capacity() == old(self).capacity(),
    {
        self.sort_with(true);
    }

    /// Sorts the elements with the stable or the unstable algorithm of the
    /// standard library.
    fn sort_with(&mut self, stable: bool)
        requires
            old(self)@.len() < 2 || old(self).width() == BitWidth::U8 || vec_fits(
                old(self)@.len() as int,
            ),
        ensures
            sorted(final(self)@),
            final(self)@.to_multiset() == old(self)@.to_multiset(),
            final(self).width() == old(self).width(),
            final(self).capacity() == old(self).capacity(),
    {
        if self.len < 2 {
            return;
        }
        proof {
            crate::std_sort::lemma_integers_are_ordered();
        }
        if self.width == BitWidth::U8 {
            proof {
                use_type_invariant(&*self);
            }
            let mut parts = CompactVec::new();
            core::mem::swap(self, &mut parts);
            let CompactVec { buf, len, cap, width } = parts;
            let mut buf = buf;
            let (head, tail) = buf.as_mut_slice().split_at_mut(len);
            let ghost before = head@;
            let ghost behind = tail@;
            if stable {
                head.sort();
            } else {
                head.sort_unstable();
            }
            let ghost after = head@;
            proof {
                vstd::seq_lib::to_multiset_len(before);
                vstd::seq_lib::to_multiset_len(after);
                crate::std_sort::lemma_ascending_u8(after);
                lemma_bytes_multiset(before, after);
                assert(buf@ == after + behind);
            }
            *self = CompactVec { buf, len, cap, width };
            assert(self@ =~= widened(after));
            assert(old(self)@ =~= widened(before));
        } else {
            let mut tmp: Vec<u32> = self.decoded();
            if stable {
                tmp.sort();
            } else {
                tmp.sort_unstable();
            }
            proof {
                crate::std_sort::lemma_ascending_u32(tmp@);
            }
            self.store_permuted(&tmp);
        }
    }

    /// Overwrites the elements with `values`, which are the same numbers in some
    /// order.
    fn store_permuted(&mut self, values: &Vec<u32>)
        requires
            values@.to_multiset() == old(self)@.to_multiset(),
        ensures
            final(self)@ == values@,
            final(self).width() == old(self).width(),
            final(self).capacity() == old(self).capacity(),
    {
        proof {
            use_type_invariant(&*self);
            self.lemma_wf();
            vstd::seq_lib::to_multiset_len(values@);
            vstd::seq_lib::to_multiset_len(self@);
            assert forall|i: int| 0 <= i < values@.len() implies self.width().fits(
                #[trigger] values@[i],
            ) by {
                vstd::seq_lib::to_multiset_contains(values@, values@[i]);
                vstd::seq_lib::to_multiset_contains(self@, values@[i]);
                assert(values@.contains(values@[i]));
                let k = choose|k: int| 0 <= k < self@.len() && self@[k] == values@[i];
                assert(self.width().fits(self@[k]));
            }
        }
        let n: usize = values.len();
        let mut i: usize = 0;
        while i < n
            invariant
                n == values@.len(),
                i <= n,
                self@.len() == n,
                n <= self.capacity(),
                self.width() == old(self).width(),
                self.capacity() == old(self).capacity(),
                all_fit(values@, self.width()),
                forall|j: int| 0 <= j < i ==> #[trigger] self@[j] == values@[j],
            decreases n - i,
        {
            let v: u32 = values[i];
            self.write_at(i, v);
            i = i + 1;
        }
        assert(self@ =~= values@);
    }

    /// Builds a vector from sorted values. Width and capacity are known from the
    /// last value and the number of values, so there is one allocation.
    pub fn from_sorted_slice(slice: &[u32]) -> (cv: Self)
        requires
            sorted(slice@),
            slice@.len() > 0 ==> alloc_fits(
                slice@.len() as int,
                BitWidth::width_for(slice@.last()),
            ),
        ensures
            cv@ == slice@,
            cv.capacity() == slice@.len(),
            cv.width() == if slice@.len() == 0 {
                BitWidth::U8
            } else {
                BitWidth::width_for(slice@.last())
            },
    {
        let n: usize = slice.len();
        if n == 0 {
            let cv = CompactVec::new();
            assert(cv@ =~= slice@);
            return cv;
        }
        let width = BitWidth::width_for(slice[n - 1]);
        let size: usize = n * width.elem_size();
        let mut buf: Vec<u8> = Vec::with_capacity(size);
        buf.resize(size, 0u8);
        let mut cv = CompactVec { buf, len: 0, cap: n, width };
        let mut i: usize = 0;
        while i < n
            invariant
                n == slice@.len(),
                n > 0,
                sorted(slice@),
                width == BitWidth::width_for(slice@[n - 1]),
                i <= n,
                cv.wf(),
                cv.capacity() == n,
                cv.width() == width,
                forall|j: int| 0 <= j < i ==> #[trigger] cv.cells()[j] == slice@[j],
            decreases n - i,
        {
            let v: u32 = slice[i];
            assert(v <= slice@[n - 1]);
            cv.write_at(i, v);
            proof {
                use_type_invariant(&cv);
            }
            i = i + 1;
        }
        let ghost cells = cv.cells();
        cv.len = n;
        assert(cv.cells() =~= cells);
        assert(cv@ =~= slice@);
        cv
    }

    /// Builds a vector from an iterator that yields sorted values. They are
    /// collected first, so that width and capacity are known.
    pub fn from_sorted_iter<I: Iterator<Item = u32>>(iter: I) -> (cv: Self)
        requires
            iter.obeys_prophetic_iter_laws(),
            iter.decrease() is Some,
            sorted(iter.remaining()),
            vec_fits(iter.remaining().len() as int),
            iter.remaining().len() > 0 ==> alloc_fits(
                iter.remaining().len() as int,
                BitWidth::width_for(iter.remaining().last()),
            ),
        ensures
            cv@ == iter.remaining(),
            cv.capacity() == iter.remaining().len(),
            cv.width() == if iter.remaining().len() == 0 {
                BitWidth::U8
            } else {
                BitWidth::width_for(iter.remaining().last())
            },
    {
        let ghost all = iter.remaining();
        let mut iter = iter;
        let mut values: Vec<u32> = Vec::new();
        assert(all =~= values@ + iter.remaining());
        loop
            invariant_except_break
                iter.obeys_prophetic_iter_laws(),
                iter.decrease() is Some,
                all == values@ + iter.remaining(),
            ensures
                all == values@,
            decreases iter.decrease()->0,
        {
            let ghost left = iter.remaining();
            let ghost had = values@;
            match iter.next() {
                Some(v) => {
                    values.push(v);
                    assert(had + left =~= values@ + iter.remaining());
                },
                None => {
                    assert(had + left =~= had);
                    break;
                },
            }
        }
        CompactVec::from_sorted_slice(values.as_slice())
    }
}

/// The bytes as numbers of the element type.
spec fn widened(bytes: Seq<u8>) -> Seq<u32> {
    Seq::new(bytes.len(), |i: int| bytes[i] as u32)
}

/// How often a number occurs among widened bytes.
proof fn lemma_widened_count(bytes: Seq<u8>, v: u32)
    ensures
        widened(bytes).to_multiset().count(v) == if v <= 0xFF {
            bytes.to_multiset().count(v as u8)
        } else {
            0
        },
    decreases bytes.len(),
{
    broadcast use vstd::multiset::group_multiset_axioms;

    if bytes.len() == 0 {
        assert(widened(bytes) =~= Seq::<u32>::empty());
        assert(bytes =~= Seq::<u8>::empty());
        vstd::seq_lib::to_multiset_len(widened(bytes));
        vstd::seq_lib::to_multiset_len(bytes);
    } else {
        let rest = bytes.drop_last();
        let last = bytes.last();
        lemma_widened_count(rest, v);
        assert(widened(bytes) =~= widened(rest).push(last as u32));
        assert(bytes =~= rest.push(last));
        vstd::seq_lib::to_multiset_build(widened(rest), last as u32);
        vstd::seq_lib::to_multiset_build(rest, last);
    }
}

/// Bytes that are a reordering of one another stay so when widened.
proof fn lemma_bytes_multiset(a: Seq<u8>, b: Seq<u8>)
    requires
        a.to_multiset() == b.to_multiset(),
    ensures
        widened(a).to_multiset() == widened(b).to_multiset(),
{
    assert forall|v: u32| widened(a).to_multiset().count(v) == widened(b).to_multiset().count(v) by {
        lemma_widened_count(a, v);
        lemma_widened_count(b, v);
    }
    assert(widened(a).to_multiset() =~= widened(b).to_multiset());
}

} // verus!
