//! Laws of capacity: how buffers grow and shrink.
use vstd::arithmetic::power2::pow2;
use vstd::prelude::*;

use crate::codec::all_fit;
use crate::model::{
    bulk_cap, can_push, cap_after_push, doubled_to, grown, lemma_doubled_to_bounds, lemma_doubled_to_step,
    lemma_push_is_doubling, lemma_width_covering_append, next_power, width_covering,
};
use crate::vector::CompactVec;
use crate::width::BitWidth;

verus! {

/// Growth gives the room that is needed, never takes room away, and, from four
/// slots on, leaves less than half of a new buffer unused.
pub proof fn law_growth_is_bounded(cap: nat, need: nat)
    ensures
        need <= doubled_to(cap, need),
        cap <= doubled_to(cap, need),
        need > cap ==> doubled_to(cap, need) == 4 || doubled_to(cap, need) < 2 * need,
{
    lemma_doubled_to_bounds(cap, need);
    if need > cap && cap == 0 {
        lemma_doubled_to_bounds(4, need);
    }
}

/// The elements that are copied from full buffers on the way from `cap` slots to
/// `need`.
pub open spec fn copied(cap: nat, need: nat) -> nat
    decreases
            if need <= cap {
                0
            } else {
                need - cap
            },
{
    if need <= cap {
        0
    } else {
        cap + copied(grown(cap), need)
    }
}

/// Growing by doubling costs less than two copies for each element appended to
/// an empty vector.
pub proof fn law_growth_is_amortised(n: nat)
    requires
        n > 0,
    ensures
        copied(0, n) < 2 * n,
{
    lemma_copied(4, n);
    law_growth_is_bounded(0, n);
}

/// Each doubling copies as many elements as it adds slots.
proof fn lemma_copied(cap: nat, need: nat)
    requires
        cap > 0,
    ensures
        cap + copied(cap, need) == doubled_to(cap, need),
    decreases
            if need <= cap {
                0
            } else {
                need - cap
            },
{
    if need > cap {
        lemma_copied(2 * cap, need);
    }
}

/// The elements that one more value, on top of `len` in `cap` slots of width `w`,
/// moves to a new buffer: all of them if capacity or width change, else none.
pub open spec fn push_moves(cap: nat, w: BitWidth, len: nat, value: u32) -> nat {
    if cap_after_push(cap, len) != cap || w.wider(BitWidth::width_for(value)) != w {
        len
    } else {
        0
    }
}

/// The elements that are moved, all in all, while `values` are appended to an
/// empty vector one by one.
pub open spec fn moved(values: Seq<u32>) -> nat
    decreases values.len(),
{
    if values.len() == 0 {
        0
    } else {
        let before = values.drop_last();
        moved(before) + push_moves(
            doubled_to(0, before.len()),
            width_covering(BitWidth::U8, before),
            before.len(),
            values.last(),
        )
    }
}

/// Appending one by one costs a constant number of moves for each element: less
/// than two for doubling, and at most three for re-encoding at a wider width.
pub proof fn law_push_is_amortised(values: Seq<u32>)
    requires
        values.len() > 0,
    ensures
        moved(values) < 5 * values.len(),
{
    lemma_moved(values);
    law_growth_is_amortised(values.len());
}

/// Moves are due to doubling, or to one of the widths that were left behind.
proof fn lemma_moved(values: Seq<u32>)
    ensures
        moved(values) <= copied(0, values.len()) + width_covering(BitWidth::U8, values).bytes_for(
            values.len() as int,
        ) - values.len(),
    decreases values.len(),
{
    if values.len() > 0 {
        let before = values.drop_last();
        let n = before.len();
        lemma_moved(before);
        lemma_doubled_to_bounds(0, n);
        lemma_doubled_to_step(0, n, n + 1);
        lemma_push_is_doubling(doubled_to(0, n), n);
        lemma_copied(4, n);
        lemma_copied(4, n + 1);
    }
}

/// Appending one value changes width and capacity as appending a run of one does,
/// and appending a run in two parts as appending it whole.
pub proof fn law_runs_split(cap: nat, w: BitWidth, len: nat, a: Seq<u32>, b: Seq<u32>, v: u32)
    requires
        len <= cap,
    ensures
        cap_after_push(cap, len) == doubled_to(cap, len + 1),
        w.wider(BitWidth::width_for(v)) == width_covering(w, seq![v]),
        doubled_to(doubled_to(cap, len + a.len()), len + a.len() + b.len()) == doubled_to(
            cap,
            len + (a + b).len(),
        ),
        width_covering(width_covering(w, a), b) == width_covering(w, a + b),
{
    lemma_push_is_doubling(cap, len);
    lemma_doubled_to_step(cap, len + a.len(), len + a.len() + b.len());
    lemma_width_covering_append(w, a, b);
    reveal_with_fuel(width_covering, 2);
    assert(seq![v].drop_last() =~= Seq::<u32>::empty());
}

/// The rounded capacity of a bulk append is the least power of two that is not
/// below what is needed.
pub proof fn law_next_power_is_least(n: nat, k: nat)
    ensures
        exists|e: nat| next_power(n) == #[trigger] pow2(e),
        next_power(n) >= n,
        pow2(k) >= n ==> next_power(n) <= pow2(k),
{
    lemma_doubled_to_bounds(1, n);
    vstd::arithmetic::power2::lemma2_to64();
    assert(pow2(0) == 1);
    lemma_doubles_are_powers(0, n, k);
}

/// Doubling from a power of two reaches the first power that is large enough.
proof fn lemma_doubles_are_powers(e: nat, n: nat, k: nat)
    ensures
        exists|x: nat| doubled_to(pow2(e), n) == #[trigger] pow2(x),
        pow2(k) >= n && k >= e ==> doubled_to(pow2(e), n) <= pow2(k),
    decreases
            if n <= pow2(e) {
                0
            } else {
                n - pow2(e)
            },
{
    vstd::arithmetic::power2::lemma_pow2_pos(e);
    vstd::arithmetic::power2::lemma_pow2_unfold(e + 1);
    if n > pow2(e) {
        assert(pow2(e + 1) == grown(pow2(e)));
        lemma_doubles_are_powers(e + 1, n, k);
    } else {
        if k > e {
            vstd::arithmetic::power2::lemma_pow2_strictly_increases(e, k);
        }
    }
}

/// A bulk append makes room for everything, keeps the room that was there, and
/// changes the capacity of a vector that does not widen only if it must.
pub proof fn law_bulk_cap_suffices(cap: nat, need: nat, widens: bool)
    ensures
        need <= bulk_cap(cap, need, widens),
        cap <= bulk_cap(cap, need, widens),
        !widens && need <= cap ==> bulk_cap(cap, need, widens) == cap,
{
    lemma_doubled_to_bounds(1, need);
}

/// A tight vector takes no more bytes than any buffer that holds its elements.
pub proof fn law_tight_is_least(cv: CompactVec, w: BitWidth, cap: nat)
    requires
        cv.is_tight(),
        all_fit(cv@, w),
        cv@.len() <= cap,
    ensures
        cv.width().at_most(w),
        cv.width().bytes_for(cv.capacity() as int) <= w.bytes_for(cap as int),
{
    crate::laws::packing::law_width_covering_is_narrowest(BitWidth::U8, cv@);
    assert(width_covering(BitWidth::U8, cv@).at_most(w));
}

/// Growing leaves a buffer that has the room as it is. Else it ends at the least
/// one that has the room, of those that come by doubling from the slots that there
/// were, or from four where there were none.
pub proof fn law_doubling_is_least(cap: nat, need: nat, k: nat)
    ensures
        doubled_to(cap, need) >= need,
        need <= cap ==> doubled_to(cap, need) == cap,
        need > cap && cap == 0 ==> exists|e: nat| doubled_to(cap, need) == 4 * #[trigger] pow2(e),
        need > cap && cap == 0 && 4 * pow2(k) >= need ==> doubled_to(cap, need) <= 4 * pow2(k),
        need > cap && cap > 0 ==> exists|e: nat| doubled_to(cap, need) == cap * #[trigger] pow2(e),
        need > cap && cap > 0 && cap * pow2(k) >= need ==> doubled_to(cap, need) <= cap * pow2(k),
{
    lemma_doubled_to_bounds(cap, need);
    vstd::arithmetic::power2::lemma2_to64();
    let base: nat = if cap == 0 {
        4
    } else {
        cap
    };
    assert(base * pow2(0) == base) by (nonlinear_arith)
        requires
            pow2(0) == 1,
    ;
    lemma_multiples(base, 0, need, k);
}

/// Doubling from a multiple of `base` by a power of two reaches the first such
/// multiple that is large enough.
proof fn lemma_multiples(base: nat, e: nat, need: nat, k: nat)
    requires
        base > 0,
    ensures
        exists|x: nat| doubled_to(base * pow2(e), need) == base * #[trigger] pow2(x),
        base * pow2(k) >= need && k >= e ==> doubled_to(base * pow2(e), need) <= base * pow2(k),
    decreases
            if need <= base * pow2(e) {
                0
            } else {
                need - base * pow2(e)
            },
{
    vstd::arithmetic::power2::lemma_pow2_pos(e);
    vstd::arithmetic::power2::lemma_pow2_unfold(e + 1);
    let now = base * pow2(e);
    assert(now > 0) by (nonlinear_arith)
        requires
            base > 0,
            pow2(e) > 0,
            now == base * pow2(e),
    ;
    assert(base * pow2(e + 1) == 2 * now) by (nonlinear_arith)
        requires
            pow2(e + 1) == 2 * pow2(e),
            now == base * pow2(e),
    ;
    if need > now {
        lemma_multiples(base, e + 1, need, k);
    } else if k > e {
        vstd::arithmetic::power2::lemma_pow2_strictly_increases(e, k);
        assert(now <= base * pow2(k)) by (nonlinear_arith)
            requires
                pow2(e) < pow2(k),
                now == base * pow2(e),
        ;
    }
}

/// A push leaves the slots as they are where one is free. A full buffer gets as
/// many again as it had, or four where it had none.
pub proof fn law_push_capacity(cap: nat, len: nat)
    requires
        len <= cap,
    ensures
        len < cap ==> cap_after_push(cap, len) == cap,
        len == cap && cap > 0 ==> cap_after_push(cap, len) - cap == cap,
        len == cap && cap == 0 ==> cap_after_push(cap, len) == 4,
{
}

/// Whether one more value can be taken: always where a slot is free and the width
/// holds it, else exactly if the bytes of the next buffer are not more than an
/// allocation may have.
pub proof fn law_can_push(cap: nat, w: BitWidth, len: nat, value: u32)
    requires
        len <= cap,
    ensures
        len < cap && w.fits(value) ==> can_push(cap, w, len, value),
        len == cap || !w.fits(value) ==> (can_push(cap, w, len, value) <==> cap_after_push(cap, len)
            * w.wider(BitWidth::width_for(value)).elem_size() <= isize::MAX),
{
    w.wider(BitWidth::width_for(value)).lemma_bytes_for(cap_after_push(cap, len) as int);
}

/// The capacity after a bulk append: as before where neither room nor width is
/// wanting, else the greater of the one before and the least power of two that
/// has the room.
pub proof fn law_bulk_cap(cap: nat, need: nat, widens: bool, k: nat)
    ensures
        !widens && need <= cap ==> bulk_cap(cap, need, widens) == cap,
        widens || need > cap ==> {
            &&& bulk_cap(cap, need, widens) >= cap
            &&& bulk_cap(cap, need, widens) >= need
            &&& bulk_cap(cap, need, widens) > cap ==> exists|e: nat|
                bulk_cap(cap, need, widens) == #[trigger] pow2(e)
            &&& pow2(k) >= need && pow2(k) >= cap ==> bulk_cap(cap, need, widens) <= pow2(k)
            &&& pow2(k) >= need && pow2(k) <= cap ==> bulk_cap(cap, need, widens) == cap
        },
{
    lemma_doubled_to_bounds(1, need);
    law_next_power_is_least(need, k);
}

/// A vector is tight exactly if it has no free slot, its width holds every
/// element, and every width that does so is at least as wide.
pub proof fn law_tight(cv: CompactVec)
    ensures
        cv.is_tight() <==> {
            &&& cv.capacity() == cv@.len()
            &&& all_fit(cv@, cv.width())
            &&& forall|w: BitWidth| #[trigger] all_fit(cv@, w) ==> cv.width().at_most(w)
        },
{
    let least = width_covering(BitWidth::U8, cv@);
    crate::laws::packing::law_width_covering_is_narrowest(BitWidth::U8, cv@);
    assert forall|w: BitWidth| #[trigger] all_fit(cv@, w) implies least.at_most(w) by {
        assert(BitWidth::U8.at_most(w));
    }
}

} // verus!
