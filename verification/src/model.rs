//! What the operations on a vector compute, said over sequences and numbers.
use vstd::prelude::*;

use crate::width::BitWidth;

verus! {

/// A buffer of `cap` slots of width `w` is within what one allocation may hold.
pub open spec fn alloc_fits(cap: int, w: BitWidth) -> bool {
    w.bytes_for(cap) <= isize::MAX
}

/// A vector of `cap` slots of width `w` can turn into one of `new_cap` slots of
/// width `new_w`: it is one already, or the new buffer can be allocated.
pub open spec fn can_become(cap: int, w: BitWidth, new_cap: int, new_w: BitWidth) -> bool {
    (new_cap == cap && new_w == w) || alloc_fits(new_cap, new_w)
}

/// A `Vec<u32>` of `n` elements is within what one allocation may hold.
pub open spec fn vec_fits(n: int) -> bool {
    4 * n <= isize::MAX
}

/// So few slots that a buffer for them can be allocated on every machine, at any
/// width and with room to double.
pub open spec fn is_modest(slots: nat) -> bool {
    slots <= 0x0800_0000
}

/// The capacity that follows `cap` when a buffer is full: four slots to start
/// with, then twice as many each time.
pub open spec fn grown(cap: nat) -> nat {
    if cap == 0 {
        4
    } else {
        2 * cap
    }
}

/// The capacity after one more element on top of `len`.
pub open spec fn cap_after_push(cap: nat, len: nat) -> nat {
    if len < cap {
        cap
    } else {
        grown(cap)
    }
}

/// The capacity reached from `cap` by growing until there are `need` slots.
pub open spec fn doubled_to(cap: nat, need: nat) -> nat
    decreases
            if need <= cap {
                0
            } else {
                need - cap
            },
{
    if need <= cap {
        cap
    } else {
        doubled_to(grown(cap), need)
    }
}

/// The least power of two that is not below `n`.
pub open spec fn next_power(n: nat) -> nat {
    doubled_to(1, n)
}

/// The capacity after a bulk append that makes `need` elements of them:
/// unchanged where neither width nor capacity asks for a new buffer, else the
/// least power of two that is not below `need`, and never less than before.
pub open spec fn bulk_cap(cap: nat, need: nat, widens: bool) -> nat {
    if (widens || need > cap) && next_power(need) > cap {
        next_power(need)
    } else {
        cap
    }
}

/// The narrowest width, from `w` on, that holds every one of `values`.
pub open spec fn width_covering(w: BitWidth, values: Seq<u32>) -> BitWidth
    decreases values.len(),
{
    if values.len() == 0 {
        w
    } else {
        width_covering(w, values.drop_last()).wider(BitWidth::width_for(values.last()))
    }
}

/// A vector of `len` elements in `cap` slots of width `w` can take one more,
/// `value`, as far as its buffer goes.
pub open spec fn can_push(cap: nat, w: BitWidth, len: nat, value: u32) -> bool {
    can_become(
        cap as int,
        w,
        cap_after_push(cap, len) as int,
        w.wider(BitWidth::width_for(value)),
    )
}

/// A vector of `len` elements in `cap` slots of width `w` can take `values`, one
/// after the other, as far as its buffer goes.
pub open spec fn can_extend(cap: nat, w: BitWidth, len: nat, values: Seq<u32>) -> bool {
    ||| is_modest(cap) && is_modest(len + values.len())
    ||| can_become(
        cap as int,
        w,
        doubled_to(cap, len + values.len()) as int,
        width_covering(w, values),
    )
}

/// A vector of `len` elements in `cap` slots of width `w` can take `n` more of
/// width `other_w` at once, as far as its buffer goes.
pub open spec fn can_append(cap: nat, w: BitWidth, len: nat, n: nat, other_w: BitWidth) -> bool {
    ||| n == 0
    ||| is_modest(cap) && is_modest(len + n)
    ||| can_become(
        cap as int,
        w,
        bulk_cap(cap, len + n, !other_w.at_most(w)) as int,
        w.wider(other_w),
    )
}

/// The value at `idx`, where there is one.
pub open spec fn lookup(s: Seq<u32>, idx: int) -> Option<u32> {
    if 0 <= idx < s.len() {
        Some(s[idx])
    } else {
        None
    }
}

/// The first `n` elements, or all of them where there are fewer.
pub open spec fn truncated(s: Seq<u32>, n: int) -> Seq<u32> {
    if 0 <= n < s.len() {
        s.take(n)
    } else {
        s
    }
}

/// In ascending order; equal neighbours are in order.
pub open spec fn sorted(s: Seq<u32>) -> bool {
    forall|i: int, j: int| #![trigger s[i], s[j]] 0 <= i < j < s.len() ==> s[i] <= s[j]
}

/// `s` without the elements that equal the one just before them.
pub open spec fn deduped(s: Seq<u32>) -> Seq<u32>
    decreases s.len(),
{
    if s.len() < 2 {
        s
    } else if s[s.len() - 1] == s[s.len() - 2] {
        deduped(s.drop_last())
    } else {
        deduped(s.drop_last()).push(s.last())
    }
}

/// The elements of `s` at the positions where `keep` is true, in order.
pub open spec fn selected(s: Seq<u32>, keep: Seq<bool>) -> Seq<u32>
    decreases s.len(),
{
    if s.len() == 0 {
        Seq::empty()
    } else if keep[s.len() - 1] {
        selected(s.drop_last(), keep).push(s.last())
    } else {
        selected(s.drop_last(), keep)
    }
}

/// Where a search of the sorted `s` for `value` may end: at an element that
/// equals it, or, where there is none, at the place where it would stand.
pub open spec fn search_outcome(s: Seq<u32>, value: u32, r: Result<usize, usize>) -> bool {
    match r {
        Ok(i) => i < s.len() && s[i as int] == value,
        Err(i) => {
            &&& i <= s.len()
            &&& forall|k: int| 0 <= k < i ==> #[trigger] s[k] < value
            &&& forall|k: int| i <= k < s.len() ==> value < #[trigger] s[k]
        },
    }
}

/// Growing reaches what is needed, without going beyond twice as much.
pub proof fn lemma_doubled_to_bounds(cap: nat, need: nat)
    ensures
        doubled_to(cap, need) >= need,
        doubled_to(cap, need) >= cap,
        need > cap && cap > 0 ==> doubled_to(cap, need) < 2 * need,
        need > cap ==> doubled_to(cap, need) <= 2 * need + 2,
    decreases
            if need <= cap {
                0
            } else {
                need - cap
            },
{
    if need > cap {
        lemma_doubled_to_bounds(grown(cap), need);
    }
}

/// Doubling to `a` on the way to `b` ends where doubling straight to `b` does.
pub proof fn lemma_doubled_to_step(cap: nat, a: nat, b: nat)
    requires
        a <= b,
    ensures
        doubled_to(doubled_to(cap, a), b) == doubled_to(cap, b),
        doubled_to(cap, a) <= doubled_to(cap, b),
    decreases
            if a <= cap {
                0
            } else {
                a - cap
            },
{
    lemma_doubled_to_bounds(doubled_to(cap, a), b);
    if a > cap {
        lemma_doubled_to_step(grown(cap), a, b);
    }
}

/// One push grows a buffer that is large enough so far as doubling to the new
/// length does.
pub proof fn lemma_push_is_doubling(cap: nat, len: nat)
    requires
        len <= cap,
    ensures
        cap_after_push(cap, len) == doubled_to(cap, len + 1),
{
    reveal_with_fuel(doubled_to, 2);
}

/// Modest counts stay within every limit.
pub proof fn lemma_modest(cap: nat, need: nat, w: BitWidth, widens: bool)
    ensures
        is_modest(cap) && is_modest(need) ==> {
            &&& alloc_fits(doubled_to(cap, need) as int, w)
            &&& alloc_fits(bulk_cap(cap, need, widens) as int, w)
        },
{
    lemma_doubled_to_bounds(cap, need);
    lemma_doubled_to_bounds(1, need);
}

/// Covering two runs one after the other is covering both.
pub proof fn lemma_width_covering_append(w: BitWidth, a: Seq<u32>, b: Seq<u32>)
    ensures
        width_covering(w, a + b) == width_covering(width_covering(w, a), b),
    decreases b.len(),
{
    if b.len() == 0 {
        assert(a + b =~= a);
    } else {
        assert((a + b).drop_last() =~= a + b.drop_last());
        lemma_width_covering_append(w, a, b.drop_last());
    }
}

/// Covering never narrows.
pub proof fn lemma_width_covering_grows(w: BitWidth, values: Seq<u32>)
    ensures
        w.at_most(width_covering(w, values)),
    decreases values.len(),
{
    if values.len() > 0 {
        lemma_width_covering_grows(w, values.drop_last());
    }
}

} // verus!
