//! Operations that move elements about: removal, deduplication, filtering and
//! bulk append.
use vstd::prelude::*;

use crate::codec::{lemma_slot_same, slot};
use crate::model::{
    bulk_cap, can_append, deduped, doubled_to, lemma_doubled_to_bounds, lemma_modest,
    next_power, selected,
};
use crate::vector::picker::Picker;
use crate::vector::CompactVec;

verus! {

/// The least power of two that is not below `n`.
fn next_power_of_two(n: usize) -> (p: usize)
    requires
        next_power(n as nat) <= isize::MAX,
    ensures
        p == next_power(n as nat),
{
    let mut p: usize = 1;
    while p < n
        invariant
            1 <= p,
            doubled_to(p as nat, n as nat) == next_power(n as nat),
            next_power(n as nat) <= isize::MAX,
        decreases 2 * n - p,
    {
        proof {
            lemma_doubled_to_bounds((2 * p) as nat, n as nat);
        }
        p = p * 2;
    }
    p
}

impl CompactVec {
    /// Removes the element at `index` and returns it; those behind it move up by
    /// one. Width and capacity stay.
    pub fn remove(&mut self, index: usize) -> (v: u32)
        requires
            index < old(self)@.len(),
        ensures
            v == old(self)@[index as int],
            final(self)@ == old(self)@.remove(index as int),
            final(self).width() == old(self).width(),
            final(self).capacity() == old(self).capacity(),
    {
        proof {
            use_type_invariant(&*self);
        }
        let removed: u32 = self.read_at(index);
        let last: usize = self.len - 1;
        let mut i: usize = index;
        while i < last
            invariant
                self.wf(),
                index <= i <= last,
                self@.len() == last + 1,
                old(self)@.len() == last + 1,
                self.width() == old(self).width(),
                self.capacity() == old(self).capacity(),
                forall|j: int| 0 <= j < index ==> #[trigger] self@[j] == old(self)@[j],
                forall|j: int| index <= j < i ==> #[trigger] self@[j] == old(self)@[j + 1],
                forall|j: int| i <= j <= last ==> #[trigger] self@[j] == old(self)@[j],
            decreases last - i,
        {
            proof {
                self.lemma_wf();
            }
            let v: u32 = self.read_at(i + 1);
            self.write_at(i, v);
            i = i + 1;
            proof {
                use_type_invariant(&*self);
            }
        }
        let ghost moved = self@;
        self.len = last;
        assert(self@ =~= moved.take(last as int));
        assert(self@ =~= old(self)@.remove(index as int));
        removed
    }

    /// Removes every element that equals the one just before it. Width and
    /// capacity stay.
    pub fn dedup(&mut self)
        ensures
            final(self)@ == deduped(old(self)@),
            final(self).width() == old(self).width(),
            final(self).capacity() == old(self).capacity(),
    {
        proof {
            use_type_invariant(&*self);
        }
        if self.len < 2 {
            return;
        }
        let n: usize = self.len;
        let mut prev: u32 = self.read_at(0);
        let mut write: usize = 1;
        let mut read: usize = 1;
        assert(self@.take(1) =~= deduped(old(self)@.take(1)));
        while read < n
            invariant
                self.wf(),
                1 <= write <= read <= n,
                self@.len() == n,
                old(self)@.len() == n,
                self.width() == old(self).width(),
                self.capacity() == old(self).capacity(),
                prev == old(self)@[read - 1],
                self@.take(write as int) == deduped(old(self)@.take(read as int)),
                forall|j: int| read <= j < n ==> #[trigger] self@[j] == old(self)@[j],
            decreases n - read,
        {
            proof {
                self.lemma_wf();
                let longer = old(self)@.take(read + 1);
                assert(longer.drop_last() =~= old(self)@.take(read as int));
                assert(longer[longer.len() - 2] == prev);
            }
            let curr: u32 = self.read_at(read);
            let ghost kept = self@.take(write as int);
            if curr != prev {
                if write != read {
                    self.write_at(write, curr);
                }
                assert(self@.take(write + 1) =~= kept.push(curr));
                prev = curr;
                write = write + 1;
            }
            read = read + 1;
            proof {
                use_type_invariant(&*self);
            }
        }
        assert(old(self)@.take(n as int) =~= old(self)@);
        let ghost moved = self@;
        self.len = write;
        assert(self@ =~= moved.take(write as int));
    }

    /// Keeps the elements for which `f` returns `true`, in their order. `f` is
    /// asked once for each element, from the first to the last, and the element
    /// stays if that call answers `true`. Width and capacity stay.
    pub fn retain<F: FnMut(u32) -> bool>(&mut self, f: F)
        requires
            forall|i: int| 0 <= i < old(self)@.len() ==> call_requires(f, (#[trigger] old(self)@[i],)),
        ensures
            exists|keep: Seq<bool>|
                {
                    &&& keep.len() == old(self)@.len()
                    &&& forall|i: int|
                        0 <= i < keep.len() ==> call_ensures(
                            f,
                            (old(self)@[i],),
                            #[trigger] keep[i],
                        )
                    &&& final(self)@ == #[trigger] selected(old(self)@, keep)
                },
            exists|asked: Picker<F>|
                {
                    &&& asked.closure() == f
                    &&& asked.calls().map_values(|call: (u32, bool)| call.0) == old(self)@
                    &&& forall|i: int|
                        0 <= i < asked.calls().len() ==> call_ensures(
                            f,
                            ((#[trigger] asked.calls()[i]).0,),
                            asked.calls()[i].1,
                        )
                    &&& final(self)@ == (#[trigger] asked.calls()).filter(
                        |call: (u32, bool)| call.1,
                    ).map_values(|call: (u32, bool)| call.0)
                },
            final(self).width() == old(self).width(),
            final(self).capacity() == old(self).capacity(),
    {
        let mut picker = Picker::new(f);
        proof {
            use_type_invariant(&*self);
        }
        let n: usize = self.len;
        let mut write: usize = 0;
        let mut read: usize = 0;
        assert(self@.take(0) =~= selected(old(self)@.take(0), answers(picker.calls())));
        while read < n
            invariant
                self.wf(),
                write <= read <= n,
                self@.len() == n,
                old(self)@.len() == n,
                self.width() == old(self).width(),
                self.capacity() == old(self).capacity(),
                picker.closure() == f,
                forall|i: int|
                    0 <= i < old(self)@.len() ==> call_requires(f, (#[trigger] old(self)@[i],)),
                picker.calls().len() == read,
                forall|i: int|
                    0 <= i < read ==> (#[trigger] picker.calls()[i]).0 == old(self)@[i]
                        && call_ensures(f, (old(self)@[i],), picker.calls()[i].1),
                self@.take(write as int) == selected(
                    old(self)@.take(read as int),
                    answers(picker.calls()),
                ),
                forall|j: int| read <= j < n ==> #[trigger] self@[j] == old(self)@[j],
            decreases n - read,
        {
            let v: u32 = self.read_at(read);
            let ghost kept = self@.take(write as int);
            let ghost before = answers(picker.calls());
            assert(v == old(self)@[read as int]);
            let wanted: bool = picker.ask(v);
            proof {
                self.lemma_wf();
                let longer = old(self)@.take(read + 1);
                assert(longer.drop_last() =~= old(self)@.take(read as int));
                lemma_selected_prefix(
                    old(self)@.take(read as int),
                    before,
                    answers(picker.calls()),
                );
            }
            if wanted {
                if write != read {
                    self.write_at(write, v);
                }
                assert(self@.take(write + 1) =~= kept.push(v));
                write = write + 1;
            }
            read = read + 1;
            proof {
                use_type_invariant(&*self);
            }
        }
        assert(old(self)@.take(n as int) =~= old(self)@);
        let ghost moved = self@;
        self.len = write;
        assert(self@ =~= moved.take(write as int));
        proof {
            let keep = answers(picker.calls());
            assert(self@ == selected(old(self)@, keep));
            assert forall|i: int| 0 <= i < keep.len() implies call_ensures(
                f,
                (old(self)@[i],),
                #[trigger] keep[i],
            ) by {
                assert(picker.calls()[i].0 == old(self)@[i]);
            }
            assert(picker.calls().map_values(|call: (u32, bool)| call.0) =~= old(self)@);
            crate::laws::access::law_retain_by_calls(old(self)@, picker.calls());
        }
    }

    /// Appends the elements of `other`. The width that they ask for and the
    /// capacity are settled first, so the buffer changes at most once.
    pub fn extend_from_compact_vec(&mut self, other: &CompactVec)
        requires
            can_append(
                old(self).capacity() as nat,
                old(self).width(),
                old(self)@.len(),
                other@.len(),
                other.width(),
            ),
        ensures
            final(self)@ == old(self)@ + other@,
            other@.len() == 0 ==> *final(self) == *old(self),
            other@.len() > 0 ==> {
                &&& final(self).width() == old(self).width().wider(other.width())
                &&& final(self).capacity() == bulk_cap(
                    old(self).capacity() as nat,
                    old(self)@.len() + other@.len(),
                    !other.width().at_most(old(self).width()),
                )
            },
    {
        proof {
            use_type_invariant(&*self);
            use_type_invariant(other);
            self.lemma_wf();
            other.lemma_wf();
            lemma_doubled_to_bounds(1, old(self)@.len() + other@.len());
            lemma_modest(
                self.capacity() as nat,
                self@.len() + other@.len(),
                self.width().wider(other.width()),
                !other.width().at_most(self.width()),
            );
        }
        if other.is_empty() {
            assert(self@ + other@ =~= self@);
            return;
        }
        let target = if self.width < other.width {
            other.width
        } else {
            self.width
        };
        let needed_len: usize = self.len + other.len;
        if self.needs_upgrade(target) {
            let rounded: usize = next_power_of_two(needed_len);
            let new_cap: usize = if rounded > self.cap {
                rounded
            } else {
                self.cap
            };
            self.upgrade_to(target, new_cap);
        } else if needed_len > self.cap {
            let new_cap: usize = next_power_of_two(needed_len);
            self.grow_alloc(new_cap);
        }
        if other.width == self.width {
            self.append_bytes(other);
        } else {
            self.append_values(other);
        }
    }

    /// Appends the elements of a vector of the same width by copying its bytes.
    pub(super) fn append_bytes(&mut self, other: &CompactVec)
        requires
            old(self)@.len() + other@.len() <= old(self).capacity(),
            old(self).width() == other.width(),
        ensures
            final(self)@ == old(self)@ + other@,
            final(self).width() == old(self).width(),
            final(self).capacity() == old(self).capacity(),
    {
        proof {
            use_type_invariant(&*self);
            use_type_invariant(other);
        }
        let mut parts = CompactVec::new();
        core::mem::swap(self, &mut parts);
        let CompactVec { buf, len, cap, width } = parts;
        let mut buf = buf;
        proof {
            width.lemma_bytes_for(len as int);
            width.lemma_bytes_for(other.len as int);
            width.lemma_bytes_for(cap as int);
        }
        let live: usize = len * width.elem_size();
        let added: usize = other.len * width.elem_size();
        let size: usize = cap * width.elem_size();
        buf.truncate(live);
        buf.extend_from_slice(&other.buf.as_slice()[0..added]);
        let ghost filled = buf@;
        buf.resize(size, 0u8);
        proof {
            assert(filled =~= old(self).buf@.take(live as int) + other.buf@.take(added as int));
            assert forall|j: int| 0 <= j < live implies #[trigger] buf@[j] == old(self).buf@[j] by {
                assert(buf@.subrange(0, filled.len() as int)[j] == filled[j]);
            }
            assert forall|j: int| live <= j < live + added implies #[trigger] buf@[j]
                == other.buf@[j - live] by {
                assert(buf@.subrange(0, filled.len() as int)[j] == filled[j]);
            }
            assert forall|i: int| 0 <= i < len + other.len implies slot(buf@, width, i) == (old(
                self,
            )@ + other@)[i] by {
                let at = width.bytes_for(i);
                if i < len {
                    assert forall|t: int| 0 <= t < width.elem_size() implies #[trigger] buf@[at + t]
                        == old(self).buf@[at + t] by {
                        assert(at + t < live);
                    }
                    lemma_slot_same(buf@, i, old(self).buf@, i, width);
                } else {
                    let from = width.bytes_for(i - len);
                    assert(at == live + from);
                    assert forall|t: int| 0 <= t < width.elem_size() implies #[trigger] buf@[at + t]
                        == other.buf@[from + t] by {
                        assert(from + t < added);
                    }
                    lemma_slot_same(buf@, i, other.buf@, i - len, width);
                }
            }
        }
        *self = CompactVec { buf, len: len + other.len, cap, width };
        assert(self@ =~= old(self)@ + other@);
    }

    /// Appends the elements of a narrower vector one by one.
    fn append_values(&mut self, other: &CompactVec)
        requires
            old(self)@.len() + other@.len() <= old(self).capacity(),
            other.width().at_most(old(self).width()),
        ensures
            final(self)@ == old(self)@ + other@,
            final(self).width() == old(self).width(),
            final(self).capacity() == old(self).capacity(),
    {
        proof {
            use_type_invariant(&*self);
            use_type_invariant(other);
        }
        let n: usize = other.len;
        let mut i: usize = 0;
        while i < n
            invariant
                self.wf(),
                other.wf(),
                n == other@.len(),
                i <= n,
                self@.len() + n <= self.capacity(),
                other.width().at_most(self.width()),
                self@ == old(self)@,
                self.len == old(self)@.len(),
                self.width() == old(self).width(),
                self.capacity() == old(self).capacity(),
                forall|j: int|
                    0 <= j < i ==> #[trigger] self.cells()[old(self)@.len() + j] == other@[j],
            decreases n - i,
        {
            let v: u32 = other.read_at(i);
            let at: usize = self.len + i;
            let ghost before = self.cells();
            self.write_at(at, v);
            proof {
                use_type_invariant(&*self);
                assert forall|j: int| 0 <= j < i + 1 implies #[trigger] self.cells()[old(
                    self,
                )@.len() + j] == other@[j] by {
                    if j < i {
                        assert(before[old(self)@.len() + j] == other@[j]);
                    }
                }
            }
            i = i + 1;
        }
        let ghost cells = self.cells();
        let ghost before = self@;
        self.len = self.len + n;
        proof {
            assert(self.cells() =~= cells);
            assert forall|k: int| 0 <= k < self@.len() implies self@[k] == (old(self)@ + other@)[k] by {
                assert(self@[k] == cells[k]);
                if k < before.len() {
                    assert(before[k] == cells[k]);
                } else {
                    assert(cells[old(self)@.len() + (k - before.len())] == other@[k - before.len()]);
                }
            }
            assert(self@ =~= old(self)@ + other@);
        }
    }
}

/// The answers that a record of calls holds.
spec fn answers(calls: Seq<(u32, bool)>) -> Seq<bool> {
    calls.map_values(|call: (u32, bool)| call.1)
}

/// Only the part of `keep` that lies within `s` matters.
proof fn lemma_selected_prefix(s: Seq<u32>, keep: Seq<bool>, longer: Seq<bool>)
    requires
        s.len() <= keep.len(),
        s.len() <= longer.len(),
        forall|i: int| 0 <= i < s.len() ==> #[trigger] keep[i] == longer[i],
    ensures
        selected(s, keep) == selected(s, longer),
    decreases s.len(),
{
    if s.len() > 0 {
        assert(keep[s.len() - 1] == longer[s.len() - 1]);
        lemma_selected_prefix(s.drop_last(), keep, longer);
    }
}

} // verus!
