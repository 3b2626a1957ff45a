//! Laws of widths and of the packed form.
use vstd::prelude::*;
use vstd::std_specs::cmp::PartialOrdSpec;

use crate::codec::{
    all_fit, decode, encode, le_bytes, lemma_encode_len, lemma_le_bytes_len,
    lemma_le_round_trip, lemma_le_value_round_trip,
};
use crate::model::width_covering;
use crate::vector::CompactVec;
use crate::width::BitWidth;

verus! {

/// A narrower width compares less than a wider one, and only equal widths
/// compare equal.
pub proof fn law_width_order(a: BitWidth, b: BitWidth)
    ensures
        a.partial_cmp_spec(&b) == Some(core::cmp::Ordering::Less) <==> a.elem_size()
            < b.elem_size(),
        a.partial_cmp_spec(&b) == Some(core::cmp::Ordering::Equal) <==> a == b,
        a.partial_cmp_spec(&b) == Some(core::cmp::Ordering::Greater) <==> b.elem_size()
            < a.elem_size(),
        a.elem_size() < b.elem_size() <==> a.spec_max() < b.spec_max(),
{
}

/// A width takes one byte more than the one below it, one byte at the least and
/// four at the most, and holds the numbers that these bytes can tell apart.
pub proof fn law_width_holds(w: BitWidth)
    ensures
        BitWidth::U8.elem_size() == 1,
        BitWidth::U16.elem_size() == 2,
        BitWidth::U24.elem_size() == 3,
        BitWidth::U32.elem_size() == 4,
        w.spec_max() + 1 == vstd::arithmetic::power::pow(256, w.elem_size() as nat),
        forall|v: u32| #[trigger]
            w.fits(v) <==> v < vstd::arithmetic::power::pow(256, w.elem_size() as nat),
        forall|n: int| #[trigger] w.bytes_for(n) == n * w.elem_size(),
{
    reveal_with_fuel(vstd::arithmetic::power::pow, 5);
    assert forall|n: int| #[trigger] w.bytes_for(n) == n * w.elem_size() by {
        w.lemma_bytes_for(n);
    }
}

/// Of two widths the wider one is one of them and holds what either holds.
pub proof fn law_wider(a: BitWidth, b: BitWidth, v: u32)
    ensures
        a.wider(b) == a || a.wider(b) == b,
        a.wider(b).fits(v) <==> a.fits(v) || b.fits(v),
        a.wider(b) == b.wider(a),
        a.at_most(b) <==> a.spec_max() <= b.spec_max(),
        a.at_most(b) <==> a.wider(b) == b,
{
}

/// The width chosen for a value holds it, and no narrower one does.
pub proof fn law_width_for_is_narrowest(v: u32, w: BitWidth)
    ensures
        BitWidth::width_for(v).fits(v),
        w.fits(v) <==> BitWidth::width_for(v).at_most(w),
{
}

/// A value makes a vector wider exactly if it is above the largest value of the
/// current width.
pub proof fn law_widens_above_max(w: BitWidth, v: u32)
    ensures
        w.wider(BitWidth::width_for(v)) != w <==> v > w.spec_max(),
        w.at_most(w.wider(BitWidth::width_for(v))),
        w.wider(BitWidth::width_for(v)).fits(v),
{
}

/// The width that covers a run of values from `w` on holds every one of them, is
/// no narrower than `w`, and no width that is both is narrower.
pub proof fn law_width_covering_is_narrowest(w: BitWidth, values: Seq<u32>)
    ensures
        all_fit(values, width_covering(w, values)),
        w.at_most(width_covering(w, values)),
        forall|x: BitWidth|
            #![trigger width_covering(w, values).at_most(x)]
            w.at_most(x) && all_fit(values, x) ==> width_covering(w, values).at_most(x),
    decreases values.len(),
{
    if values.len() > 0 {
        let rest = values.drop_last();
        law_width_covering_is_narrowest(w, rest);
        let narrow = width_covering(w, rest);
        assert forall|i: int| 0 <= i < values.len() implies width_covering(w, values).fits(
            #[trigger] values[i],
        ) by {
            if i < rest.len() {
                assert(narrow.fits(rest[i]));
            }
        }
        assert forall|x: BitWidth|
            #![trigger width_covering(w, values).at_most(x)]
            w.at_most(x) && all_fit(values, x) implies width_covering(w, values).at_most(x) by {
            assert forall|i: int| 0 <= i < rest.len() implies x.fits(#[trigger] rest[i]) by {
                assert(x.fits(values[i]));
            }
            assert(narrow.at_most(x));
            assert(x.fits(values[values.len() - 1]));
        }
    }
}

/// Against four bytes for each of `n` elements, one byte saves 75 percent, two
/// save 50, three save 25 and four save nothing.
pub proof fn law_savings(n: nat)
    ensures
        100 * (4 * n - BitWidth::U8.bytes_for(n as int)) == 75 * (4 * n),
        100 * (4 * n - BitWidth::U16.bytes_for(n as int)) == 50 * (4 * n),
        100 * (4 * n - BitWidth::U24.bytes_for(n as int)) == 25 * (4 * n),
        100 * (4 * n - BitWidth::U32.bytes_for(n as int)) == 0,
{
}

/// In the packed form, element `i` is the little-endian bytes of its value, from
/// byte offset `i` times the element size on, with nothing between the elements.
pub proof fn law_element_offset(values: Seq<u32>, w: BitWidth, i: int)
    requires
        0 <= i < values.len(),
    ensures
        encode(values, w).len() == values.len() * w.elem_size(),
        encode(values, w).subrange(i * w.elem_size(), (i + 1) * w.elem_size()) == le_bytes(
            values[i] as nat,
            w.elem_size() as nat,
        ),
    decreases values.len(),
{
    let rest = values.drop_last();
    let last = le_bytes(values.last() as nat, w.elem_size() as nat);
    lemma_encode_len(values, w);
    lemma_encode_len(rest, w);
    lemma_le_bytes_len(values.last() as nat, w.elem_size() as nat);
    w.lemma_bytes_for(values.len() as int);
    w.lemma_bytes_for(rest.len() as int);
    w.lemma_bytes_for(i);
    w.lemma_bytes_for(i + 1);
    let at = w.bytes_for(i);
    let end = w.bytes_for(i + 1);
    if i < rest.len() {
        law_element_offset(rest, w, i);
        assert(encode(values, w).subrange(at, end) =~= encode(rest, w).subrange(at, end));
    } else {
        assert(encode(values, w).subrange(at, end) =~= last);
    }
}

/// Unpacking gives back what was packed, where the width holds every value.
pub proof fn law_decode_undoes_encode(values: Seq<u32>, w: BitWidth)
    requires
        all_fit(values, w),
    ensures
        decode(encode(values, w), w) == values,
{
    lemma_encode_len(values, w);
    w.lemma_bytes_for(values.len() as int);
    let bytes = encode(values, w);
    assert(decode(bytes, w).len() == values.len());
    assert forall|i: int| 0 <= i < values.len() implies decode(bytes, w)[i] == values[i] by {
        law_element_offset(values, w, i);
        w.lemma_bytes_for(i);
        w.lemma_bytes_for(i + 1);
        assert(w.fits(values[i]));
        lemma_le_round_trip(values[i], w);
    }
    assert(decode(bytes, w) =~= values);
}

/// Packing gives back what was unpacked, where the bytes are whole elements.
pub proof fn law_encode_undoes_decode(bytes: Seq<u8>, w: BitWidth, n: nat)
    requires
        bytes.len() == w.bytes_for(n as int),
    ensures
        decode(bytes, w).len() == n,
        encode(decode(bytes, w), w) == bytes,
    decreases n,
{
    let values = decode(bytes, w);
    assert(values.len() == n);
    if n == 0 {
        assert(encode(values, w) =~= bytes);
    } else {
        let m = n - 1;
        let at = w.bytes_for(m);
        let head = bytes.take(at);
        let tail = bytes.subrange(at, w.bytes_for(n as int));
        law_encode_undoes_decode(head, w, m as nat);
        assert(values.drop_last() =~= decode(head, w)) by {
            assert forall|i: int| 0 <= i < m implies values[i] == decode(head, w)[i] by {
                assert(bytes.subrange(w.bytes_for(i), w.bytes_for(i + 1)) =~= head.subrange(
                    w.bytes_for(i),
                    w.bytes_for(i + 1),
                ));
            }
        }
        lemma_le_value_round_trip(tail, w);
        assert(bytes =~= head + tail);
    }
}

/// Of every vector: its elements have room, each of them fits its width, its
/// bytes unpack to its elements, and an empty buffer has the narrowest width.
pub proof fn law_invariant(cv: CompactVec)
    requires
        cv.wf(),
    ensures
        cv@.len() <= cv.capacity(),
        forall|i: int| 0 <= i < cv@.len() ==> #[trigger] cv@[i] <= cv.width().spec_max(),
        decode(encode(cv@, cv.width()), cv.width()) == cv@,
        cv.capacity() == 0 ==> cv.width() == BitWidth::U8,
{
    cv.lemma_wf();
    assert forall|i: int| 0 <= i < cv@.len() implies #[trigger] cv@[i] <= cv.width().spec_max() by {
        assert(cv.width().fits(cv@[i]));
    }
    law_decode_undoes_encode(cv@, cv.width());
}

/// Vectors are equal exactly if they hold the same elements, whatever their
/// widths and capacities; this is an equivalence.
pub proof fn law_equality(a: CompactVec, b: CompactVec, c: CompactVec)
    ensures
        vstd::std_specs::cmp::PartialEqSpec::eq_spec(&a, &b) <==> a@ == b@,
        vstd::std_specs::cmp::PartialEqSpec::eq_spec(&a, &a),
        vstd::std_specs::cmp::PartialEqSpec::eq_spec(&a, &b)
            ==> vstd::std_specs::cmp::PartialEqSpec::eq_spec(&b, &a),
        vstd::std_specs::cmp::PartialEqSpec::eq_spec(&a, &b)
            && vstd::std_specs::cmp::PartialEqSpec::eq_spec(&b, &c)
            ==> vstd::std_specs::cmp::PartialEqSpec::eq_spec(&a, &c),
{
}

/// A vector and a `Vec<u32>` are equal, whichever of them stands first, exactly if
/// they hold the same elements: as many, and the same one at every place.
pub proof fn law_equality_with_vec(cv: CompactVec, v: Vec<u32>)
    ensures
        vstd::std_specs::cmp::PartialEqSpec::eq_spec(&cv, &v) <==> cv@ == v@,
        vstd::std_specs::cmp::PartialEqSpec::eq_spec(&v, &cv) <==> cv@ == v@,
        vstd::std_specs::cmp::PartialEqSpec::eq_spec(&cv, &v) <==> cv@.len() == v@.len() && forall|
            i: int,
        |
            0 <= i < cv@.len() ==> #[trigger] cv@[i] == v@[i],
        cv@.len() != v@.len() ==> !vstd::std_specs::cmp::PartialEqSpec::eq_spec(&cv, &v)
            && !vstd::std_specs::cmp::PartialEqSpec::eq_spec(&v, &cv),
{
    assert(cv@.len() == v@.len() && (forall|i: int|
        0 <= i < cv@.len() ==> #[trigger] cv@[i] == v@[i]) ==> cv@ =~= v@);
}

/// Equality passes from a vector to a `Vec<u32>` of the same elements and back.
pub proof fn law_equality_through_vec(a: CompactVec, b: CompactVec, v: Vec<u32>)
    requires
        vstd::std_specs::cmp::PartialEqSpec::eq_spec(&a, &v),
    ensures
        vstd::std_specs::cmp::PartialEqSpec::eq_spec(&v, &a),
        vstd::std_specs::cmp::PartialEqSpec::eq_spec(&a, &b)
            <==> vstd::std_specs::cmp::PartialEqSpec::eq_spec(&v, &b),
{
}

/// In the packed form, byte `k` of element `i` is the digit of its value that
/// counts 256 to the power of `k`.
pub proof fn law_packed_byte(values: Seq<u32>, w: BitWidth, i: int, k: nat)
    requires
        0 <= i < values.len(),
        k < w.elem_size(),
    ensures
        0 <= i * w.elem_size() + k < encode(values, w).len(),
        encode(values, w)[i * w.elem_size() + k] == values[i] as int / vstd::arithmetic::power::pow(
            256,
            k,
        ) % 256,
{
    let size = w.elem_size() as int;
    law_element_offset(values, w, i);
    w.lemma_bytes_for(i);
    w.lemma_bytes_for(i + 1);
    w.lemma_bytes_for(values.len() as int);
    lemma_digit(values[i] as nat, size as nat, k);
    assert(encode(values, w)[i * size + k] == encode(values, w).subrange(
        i * size,
        (i + 1) * size,
    )[k as int]);
}

proof fn lemma_digit(v: nat, n: nat, k: nat)
    requires
        k < n,
    ensures
        le_bytes(v, n).len() == n,
        le_bytes(v, n)[k as int] == v as int / vstd::arithmetic::power::pow(256, k) % 256,
    decreases k,
{
    lemma_le_bytes_len(v, n);
    if k == 0 {
        vstd::arithmetic::power::lemma_pow0(256);
    } else {
        let j = (k - 1) as nat;
        lemma_digit(v / 256, (n - 1) as nat, j);
        reveal(vstd::arithmetic::power::pow);
        vstd::arithmetic::power::lemma_pow_positive(256, j);
        vstd::arithmetic::div_mod::lemma_div_denominator(
            v as int,
            256,
            vstd::arithmetic::power::pow(256, j),
        );
    }
}

} // verus!
