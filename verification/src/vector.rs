//! The packed vector and its element-wise operations.
use vstd::prelude::*;

use crate::codec::{all_fit, read_val, slot, slots, write_val};
use crate::model::{
    alloc_fits, can_become, can_push, cap_after_push, lemma_width_covering_append,
    lemma_width_covering_grows, lookup, truncated, width_covering,
};
use crate::width::BitWidth;

mod convert;
mod edit;
mod format;
pub mod iter;
pub mod listing;
mod order;
pub mod picker;

verus! {

/// A growable list of `u32` values, all of them stored at one byte width.
///
/// The width starts at one byte and grows as soon as a value asks for it; the
/// elements that are already there are then re-encoded. It shrinks only in
/// [`shrink_to_fit`](CompactVec::shrink_to_fit) and
/// [`clear_and_shrink_width`](CompactVec::clear_and_shrink_width).
///
/// In contracts a vector is seen as the sequence of its elements (`cv@`) with a
/// capacity and a width.
pub struct CompactVec {
    /// `cap` slots of width `width`; the first `len` of them are the elements.
    buf: Vec<u8>,
    len: usize,
    cap: usize,
    width: BitWidth,
}

impl View for CompactVec {
    type V = Seq<u32>;

    /// The elements, in order.
    closed spec fn view(&self) -> Seq<u32> {
        slots(self.buf@, self.width, self.len as nat)
    }
}

impl CompactVec {
    /// What holds of every vector at all times.
    #[verifier::type_invariant]
    pub closed spec fn wf(self) -> bool {
        &&& self.len <= self.cap
        &&& self.buf.len() == self.width.bytes_for(self.cap as int)
        &&& self.buf.len() <= isize::MAX
        &&& self.cap == 0 ==> self.width == BitWidth::U8
    }

    /// The number of slots in the buffer.
    pub closed spec fn spec_capacity(&self) -> usize {
        self.cap
    }

    /// The width of every slot.
    pub closed spec fn spec_width(&self) -> BitWidth {
        self.width
    }

    /// The values in all slots, those behind the last element with them.
    spec fn cells(self) -> Seq<u32> {
        slots(self.buf@, self.width, self.cap as nat)
    }

    /// What a vector guarantees of itself: it has room for its elements, every
    /// element fits its width, and its buffer is one that can be allocated.
    pub proof fn lemma_wf(self)
        requires
            self.wf(),
        ensures
            self@.len() <= self.capacity(),
            all_fit(self@, self.width()),
            alloc_fits(self.capacity() as int, self.width()),
            self.capacity() == 0 ==> self.width() == BitWidth::U8,
    {
    }

    /// Creates an empty vector, which holds no allocation.
    pub fn new() -> (cv: Self)
        ensures
            cv@ == Seq::<u32>::empty(),
            cv.capacity() == 0,
            cv.width() == BitWidth::U8,
    {
        let cv = CompactVec { buf: Vec::new(), len: 0, cap: 0, width: BitWidth::U8 };
        assert(cv@ =~= Seq::<u32>::empty());
        cv
    }

    /// Creates an empty vector with room for `cap` elements of one byte.
    pub fn with_capacity(cap: usize) -> (cv: Self)
        requires
            alloc_fits(cap as int, BitWidth::U8),
        ensures
            cv@ == Seq::<u32>::empty(),
            cv.capacity() == cap,
            cv.width() == BitWidth::U8,
    {
        let mut cv = CompactVec::new();
        if cap > 0 {
            cv.grow_alloc(cap);
        }
        cv
    }

    /// The current storage width.
    #[verifier::when_used_as_spec(spec_width)]
    pub fn width(&self) -> (width: BitWidth)
        ensures
            width == self.spec_width(),
            all_fit(self@, width),
    {
        proof {
            use_type_invariant(self);
            self.lemma_wf();
        }
        self.width
    }

    /// The number of elements.
    pub fn len(&self) -> (len: usize)
        ensures
            len == self@.len(),
    {
        self.len
    }

    /// Whether there are no elements.
    pub fn is_empty(&self) -> (empty: bool)
        ensures
            empty == (self@.len() == 0),
    {
        self.len == 0
    }

    /// The number of elements that the current buffer has room for at the
    /// current width.
    #[verifier::when_used_as_spec(spec_capacity)]
    pub fn capacity(&self) -> (cap: usize)
        ensures
            cap == self.spec_capacity(),
            cap >= self@.len(),
            alloc_fits(cap as int, self.width()),
    {
        proof {
            use_type_invariant(self);
        }
        self.cap
    }

    /// The largest value that can be stored at the current width.
    pub fn max_value(&self) -> (max: u32)
        ensures
            max == self.width().spec_max(),
    {
        match self.width {
            BitWidth::U8 => 0xFF,
            BitWidth::U16 => 0xFFFF,
            BitWidth::U24 => 0xFF_FFFF,
            BitWidth::U32 => 0xFFFF_FFFF,
        }
    }

    /// The current storage width in bits: 8, 16, 24 or 32.
    pub fn width_bits(&self) -> (bits: u32)
        ensures
            bits == 8 * self.width().elem_size(),
    {
        match self.width {
            BitWidth::U8 => 8,
            BitWidth::U16 => 16,
            BitWidth::U24 => 24,
            BitWidth::U32 => 32,
        }
    }

    /// The number of bytes that the elements take.
    pub fn byte_len(&self) -> (bytes: usize)
        ensures
            bytes == self@.len() * self.width().elem_size(),
    {
        proof {
            use_type_invariant(self);
            self.width.lemma_bytes_for(self.len as int);
            self.width.lemma_bytes_for(self.cap as int);
        }
        self.len * self.width.elem_size()
    }

    /// The number of bytes in the buffer, its unused slots with them.
    pub fn byte_capacity(&self) -> (bytes: usize)
        ensures
            bytes == self.capacity() * self.width().elem_size(),
    {
        proof {
            use_type_invariant(self);
            self.width.lemma_bytes_for(self.cap as int);
        }
        self.cap * self.width.elem_size()
    }

    /// The element at `idx`, or `None` where `idx` is not below the length.
    pub fn get(&self, idx: usize) -> (r: Option<u32>)
        ensures
            r == lookup(self@, idx as int),
    {
        if idx >= self.len {
            return None;
        }
        Some(self.read_at(idx))
    }

    /// The element at `idx`, which must be below the length.
    pub fn get_unchecked(&self, idx: usize) -> (v: u32)
        requires
            idx < self@.len(),
        ensures
            v == self@[idx as int],
    {
        self.read_at(idx)
    }

    /// Whether [`push`](CompactVec::push) can append `value`: either the buffer
    /// need not change, or the one it then takes can be allocated.
    pub fn can_push(&self, value: u32) -> (ok: bool)
        ensures
            ok == can_push(self.capacity() as nat, self.width(), self@.len(), value),
    {
        proof {
            use_type_invariant(self);
        }
        let needed = BitWidth::width_for(value);
        let widens = self.needs_upgrade(needed);
        let new_cap: usize = self.cap_for_push();
        if new_cap == self.cap && !widens {
            return true;
        }
        let new_width = if widens {
            needed
        } else {
            self.width
        };
        let limit: usize = isize::MAX as usize;
        match new_width {
            BitWidth::U8 => new_cap <= limit,
            BitWidth::U16 => new_cap <= limit / 2,
            BitWidth::U24 => new_cap <= limit / 3,
            BitWidth::U32 => new_cap <= limit / 4,
        }
    }

    /// Appends `value`. Where it does not fit the current width, all elements
    /// are re-encoded at the width that it asks for. A full buffer is doubled,
    /// or gets four slots where it had none.
    pub fn push(&mut self, value: u32)
        requires
            can_push(old(self).capacity() as nat, old(self).width(), old(self)@.len(), value),
        ensures
            final(self)@ == old(self)@.push(value),
            final(self).width() == old(self).width().wider(BitWidth::width_for(value)),
            final(self).capacity() == cap_after_push(old(self).capacity() as nat, old(self)@.len()),
    {
        proof {
            use_type_invariant(&*self);
            self.lemma_wf();
        }
        let needed = BitWidth::width_for(value);
        let new_cap: usize = self.cap_for_push();
        if self.needs_upgrade(needed) {
            self.upgrade_to(needed, new_cap);
        } else if new_cap > self.cap {
            self.grow_alloc(new_cap);
        }
        let at: usize = self.len;
        let ghost before = self@;
        self.write_at(at, value);
        proof {
            use_type_invariant(&*self);
        }
        self.len = at + 1;
        assert(self@ =~= before.push(value)) by {
            assert forall|i: int| 0 <= i < before.len() implies self@[i] == before[i] by {
                assert(self.cells()[i] == self@[i]);
            }
            assert(self.cells()[at as int] == value);
        }
    }

    /// Replaces the element at `idx`. Where `value` does not fit the current
    /// width, all elements are re-encoded first; the capacity stays.
    pub fn set(&mut self, idx: usize, value: u32)
        requires
            idx < old(self)@.len(),
            can_become(
                old(self).capacity() as int,
                old(self).width(),
                old(self).capacity() as int,
                old(self).width().wider(BitWidth::width_for(value)),
            ),
        ensures
            final(self)@ == old(self)@.update(idx as int, value),
            final(self).width() == old(self).width().wider(BitWidth::width_for(value)),
            final(self).capacity() == old(self).capacity(),
    {
        proof {
            use_type_invariant(&*self);
            self.lemma_wf();
        }
        let needed = BitWidth::width_for(value);
        if self.needs_upgrade(needed) {
            self.upgrade(needed);
        }
        let ghost before = self@;
        self.write_at(idx, value);
        assert(self@ =~= before.update(idx as int, value));
    }

    /// Removes the last element and returns it, or returns `None` where there is
    /// none. Width and capacity stay.
    pub fn pop(&mut self) -> (r: Option<u32>)
        ensures
            r == lookup(old(self)@, old(self)@.len() - 1),
            final(self)@ == truncated(old(self)@, old(self)@.len() - 1),
            final(self).width() == old(self).width(),
            final(self).capacity() == old(self).capacity(),
    {
        proof {
            use_type_invariant(&*self);
        }
        if self.len == 0 {
            return None;
        }
        let last: usize = self.len - 1;
        let v: u32 = self.read_at(last);
        self.len = last;
        assert(self@ =~= old(self)@.take(last as int));
        Some(v)
    }

    /// Removes all elements. Width and capacity stay.
    pub fn clear(&mut self)
        ensures
            final(self)@ == Seq::<u32>::empty(),
            final(self).width() == old(self).width(),
            final(self).capacity() == old(self).capacity(),
    {
        proof {
            use_type_invariant(&*self);
        }
        self.len = 0;
        assert(self@ =~= Seq::<u32>::empty());
    }

    /// Keeps the first `new_len` elements, or all where there are no more. Width
    /// and capacity stay.
    pub fn truncate(&mut self, new_len: usize)
        ensures
            final(self)@ == truncated(old(self)@, new_len as int),
            final(self).width() == old(self).width(),
            final(self).capacity() == old(self).capacity(),
    {
        proof {
            use_type_invariant(&*self);
        }
        if new_len < self.len {
            self.len = new_len;
            assert(self@ =~= old(self)@.take(new_len as int));
        }
    }

    /// Removes all elements, frees the buffer and goes back to one byte per
    /// element.
    pub fn clear_and_shrink_width(&mut self)
        ensures
            final(self)@ == Seq::<u32>::empty(),
            final(self).capacity() == 0,
            final(self).width() == BitWidth::U8,
    {
        *self = CompactVec::new();
    }

    /// The capacity is the length, and the width is the narrowest that holds
    /// every element.
    pub open spec fn is_tight(&self) -> bool {
        &&& self.capacity() == self@.len()
        &&& self.width() == width_covering(BitWidth::U8, self@)
    }

    /// Makes the buffer as small as the elements allow: capacity and width become
    /// the least that hold them. The elements stay, and a vector that is tight
    /// already is left as it is.
    pub fn shrink_to_fit(&mut self)
        ensures
            final(self)@ == old(self)@,
            final(self).is_tight(),
            old(self).is_tight() ==> *final(self) == *old(self),
    {
        proof {
            use_type_invariant(&*self);
            self.lemma_wf();
        }
        let mut min_needed = BitWidth::U8;
        let mut i: usize = 0;
        assert(self@.take(0) =~= Seq::<u32>::empty());
        while i < self.len && min_needed != BitWidth::U32
            invariant
                *self == *old(self),
                self.wf(),
                i <= self.len,
                min_needed == width_covering(BitWidth::U8, self@.take(i as int)),
            decreases self.len - i,
        {
            let val: u32 = self.read_at(i);
            let width = BitWidth::width_for(val);
            assert(self@.take(i as int + 1).drop_last() =~= self@.take(i as int));
            if min_needed < width {
                min_needed = width;
            }
            i = i + 1;
        }
        proof {
            let n = self@.len() as int;
            assert(self@ =~= self@.take(i as int) + self@.subrange(i as int, n));
            lemma_width_covering_append(
                BitWidth::U8,
                self@.take(i as int),
                self@.subrange(i as int, n),
            );
            lemma_width_covering_grows(min_needed, self@.subrange(i as int, n));
            crate::laws::packing::law_width_covering_is_narrowest(BitWidth::U8, self@);
            assert(width_covering(BitWidth::U8, self@) == min_needed);
            assert(width_covering(BitWidth::U8, self@).at_most(self.width));
        }
        if self.cap > self.len || min_needed < self.width {
            if self.len == 0 {
                *self = CompactVec::new();
                assert(self@ =~= old(self)@);
            } else {
                let n: usize = self.len;
                self.upgrade_to(min_needed, n);
            }
        }
    }

    /// Allocates or reallocates the buffer for `new_cap` elements at the current
    /// width; there must be room for those that are there.
    fn grow_alloc(&mut self, new_cap: usize)
        requires
            new_cap > 0,
            new_cap >= old(self)@.len(),
            alloc_fits(new_cap as int, old(self).width()),
        ensures
            final(self)@ == old(self)@,
            final(self).capacity() == new_cap,
            final(self).width() == old(self).width(),
    {
        proof {
            use_type_invariant(&*self);
        }
        let size: usize = new_cap * self.width.elem_size();
        let mut parts = CompactVec::new();
        core::mem::swap(self, &mut parts);
        let CompactVec { buf, len, cap: _, width } = parts;
        let ghost was = buf@;
        let mut old_buf = buf;
        old_buf.truncate(size);
        let ghost kept = old_buf@;
        let mut new_buf: Vec<u8> = Vec::with_capacity(size);
        new_buf.append(&mut old_buf);
        new_buf.resize(size, 0u8);
        assert forall|j: int| 0 <= j < kept.len() implies new_buf@[j] == was[j] by {
            assert(new_buf@.subrange(0, kept.len() as int)[j] == kept[j]);
        }
        *self = CompactVec { buf: new_buf, len, cap: new_cap, width };
        assert(self@ =~= old(self)@);
    }

    /// Moves the elements to a new buffer of `new_cap` slots of width `target`.
    fn upgrade_to(&mut self, target: BitWidth, new_cap: usize)
        requires
            new_cap > 0,
            new_cap >= old(self)@.len(),
            alloc_fits(new_cap as int, target),
            all_fit(old(self)@, target),
        ensures
            final(self)@ == old(self)@,
            final(self).capacity() == new_cap,
            final(self).width() == target,
    {
        proof {
            use_type_invariant(&*self);
        }
        let size: usize = new_cap * target.elem_size();
        let mut new_buf: Vec<u8> = Vec::with_capacity(size);
        new_buf.resize(size, 0u8);
        let mut i: usize = 0;
        while i < self.len
            invariant
                *self == *old(self),
                self.wf(),
                i <= self.len <= new_cap,
                new_buf.len() == target.bytes_for(new_cap as int),
                all_fit(self@, target),
                forall|j: int| 0 <= j < i ==> #[trigger] slot(new_buf@, target, j) == self@[j],
            decreases self.len - i,
        {
            let v: u32 = self.read_at(i);
            write_val(&mut new_buf, i, v, target);
            i = i + 1;
        }
        *self = CompactVec { buf: new_buf, len: self.len, cap: new_cap, width: target };
        assert(self@ =~= old(self)@);
    }

    /// The capacity that one more element asks for.
    fn cap_for_push(&self) -> (cap: usize)
        ensures
            cap == cap_after_push(self.capacity() as nat, self@.len()),
    {
        proof {
            use_type_invariant(self);
        }
        if self.len < self.cap {
            self.cap
        } else if self.cap == 0 {
            4
        } else {
            self.cap * 2
        }
    }

    /// Whether `needed` is wider than the current width.
    fn needs_upgrade(&self, needed: BitWidth) -> (r: bool)
        ensures
            r == !needed.at_most(self.width()),
    {
        self.width < needed
    }

    /// Re-encodes the elements at width `target`; the capacity stays.
    fn upgrade(&mut self, target: BitWidth)
        requires
            old(self)@.len() > 0,
            old(self).width().at_most(target),
            alloc_fits(old(self).capacity() as int, target),
        ensures
            final(self)@ == old(self)@,
            final(self).capacity() == old(self).capacity(),
            final(self).width() == target,
    {
        proof {
            use_type_invariant(&*self);
            self.lemma_wf();
        }
        let cap: usize = self.cap;
        self.upgrade_to(target, cap);
    }

    /// Decodes the element at `idx`.
    fn read_at(&self, idx: usize) -> (v: u32)
        requires
            idx < self@.len(),
        ensures
            v == self@[idx as int],
            self.width().fits(v),
    {
        proof {
            use_type_invariant(self);
        }
        read_val(&self.buf, idx, self.width)
    }

    /// The elements in a `Vec` of their own.
    fn decoded(&self) -> (values: Vec<u32>)
        ensures
            values@ == self@,
    {
        let n: usize = self.len;
        let mut values: Vec<u32> = Vec::with_capacity(n);
        let mut i: usize = 0;
        while i < n
            invariant
                n == self@.len(),
                i <= n,
                values@ == self@.take(i as int),
            decreases n - i,
        {
            let v: u32 = self.read_at(i);
            values.push(v);
            assert(values@ =~= self@.take(i as int + 1));
            i = i + 1;
        }
        assert(values@ =~= self@);
        values
    }

    /// Encodes `v` into slot `idx`, which need not be one of an element.
    fn write_at(&mut self, idx: usize, v: u32)
        requires
            idx < old(self).capacity(),
            old(self).width().fits(v),
        ensures
            final(self).cells() == old(self).cells().update(idx as int, v),
            final(self)@.len() == old(self)@.len(),
            idx < old(self)@.len() ==> final(self)@ == old(self)@.update(idx as int, v),
            idx >= old(self)@.len() ==> final(self)@ == old(self)@,
            final(self).capacity() == old(self).capacity(),
            final(self).width() == old(self).width(),
    {
        proof {
            use_type_invariant(&*self);
        }
        write_val(&mut self.buf, idx, v, self.width);
        assert(self.cells() =~= old(self).cells().update(idx as int, v));
        assert(idx < old(self)@.len() ==> self@ =~= old(self)@.update(idx as int, v));
        assert(idx >= old(self)@.len() ==> self@ =~= old(self)@);
    }
}

} // verus!
