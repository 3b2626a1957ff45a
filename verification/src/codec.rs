//! Little-endian packing of `u32` values into a flat byte buffer.
//!
//! Element `i` of a buffer of width `w` takes the `w.elem_size()` bytes from
//! offset `i * w.elem_size()` on, least significant byte first, without padding.
use vstd::prelude::*;

use crate::width::BitWidth;

verus! {

/// The low `n` bytes of `v`, least significant first.
pub open spec fn le_bytes(v: nat, n: nat) -> Seq<u8>
    decreases n,
{
    if n == 0 {
        Seq::empty()
    } else {
        seq![(v % 256) as u8] + le_bytes(v / 256, (n - 1) as nat)
    }
}

/// The number whose bytes, least significant first, are `bytes`.
pub open spec fn le_value(bytes: Seq<u8>) -> nat
    decreases bytes.len(),
{
    if bytes.len() == 0 {
        0
    } else {
        bytes[0] as nat + 256 * le_value(bytes.drop_first())
    }
}

/// The packed form of `values`: one element after the other, each as
/// `w.elem_size()` little-endian bytes.
pub open spec fn encode(values: Seq<u32>, w: BitWidth) -> Seq<u8>
    decreases values.len(),
{
    if values.len() == 0 {
        Seq::empty()
    } else {
        encode(values.drop_last(), w) + le_bytes(values.last() as nat, w.elem_size() as nat)
    }
}

/// The values whose packed form is `bytes`; bytes behind the last whole element
/// count for nothing.
pub open spec fn decode(bytes: Seq<u8>, w: BitWidth) -> Seq<u32> {
    Seq::new(
        (bytes.len() / (w.elem_size() as nat)),
        |i: int| le_value(bytes.subrange(w.bytes_for(i), w.bytes_for(i + 1))) as u32,
    )
}

/// Every value can be stored at width `w`.
pub open spec fn all_fit(values: Seq<u32>, w: BitWidth) -> bool {
    forall|i: int| 0 <= i < values.len() ==> w.fits(#[trigger] values[i])
}

/// The value stored in slot `i` of a buffer of width `w`.
pub open spec fn slot(bytes: Seq<u8>, w: BitWidth, i: int) -> u32 {
    match w {
        BitWidth::U8 => bytes[i] as u32,
        BitWidth::U16 => (bytes[2 * i] + 256 * bytes[2 * i + 1]) as u32,
        BitWidth::U24 => (bytes[3 * i] + 256 * bytes[3 * i + 1] + 65536 * bytes[3 * i + 2]) as u32,
        BitWidth::U32 => (bytes[4 * i] + 256 * bytes[4 * i + 1] + 65536 * bytes[4 * i + 2]
            + 16777216 * bytes[4 * i + 3]) as u32,
    }
}

/// The values in the first `n` slots of a buffer of width `w`.
pub open spec fn slots(bytes: Seq<u8>, w: BitWidth, n: nat) -> Seq<u32> {
    Seq::new(n, |i: int| slot(bytes, w, i))
}

/// A slot depends only on its own bytes.
pub proof fn lemma_slot_same(a: Seq<u8>, i: int, b: Seq<u8>, k: int, w: BitWidth)
    requires
        forall|t: int|
            0 <= t < w.elem_size() ==> #[trigger] a[w.bytes_for(i) + t] == b[w.bytes_for(k) + t],
    ensures
        slot(a, w, i) == slot(b, w, k),
{
    assert(a[w.bytes_for(i) + 0] == b[w.bytes_for(k) + 0]);
    if w.elem_size() > 1 {
        assert(a[w.bytes_for(i) + 1] == b[w.bytes_for(k) + 1]);
    }
    if w.elem_size() > 2 {
        assert(a[w.bytes_for(i) + 2] == b[w.bytes_for(k) + 2]);
    }
    if w.elem_size() > 3 {
        assert(a[w.bytes_for(i) + 3] == b[w.bytes_for(k) + 3]);
    }
}

/// The bytes of a number, one by one.
proof fn lemma_le_bytes_of(v: nat, n: nat)
    requires
        n <= 4,
    ensures
        le_bytes(v, n).len() == n,
        n > 0 ==> le_bytes(v, n)[0] == v % 256,
        n > 1 ==> le_bytes(v, n)[1] == v / 256 % 256,
        n > 2 ==> le_bytes(v, n)[2] == v / 65536 % 256,
        n > 3 ==> le_bytes(v, n)[3] == v / 16777216 % 256,
{
    reveal_with_fuel(le_bytes, 5);
}

pub proof fn lemma_le_bytes_len(v: nat, n: nat)
    ensures
        le_bytes(v, n).len() == n,
    decreases n,
{
    if n > 0 {
        lemma_le_bytes_len(v / 256, (n - 1) as nat);
    }
}

/// The packed form has the element size for each value.
pub proof fn lemma_encode_len(values: Seq<u32>, w: BitWidth)
    ensures
        encode(values, w).len() == w.bytes_for(values.len() as int),
    decreases values.len(),
{
    if values.len() > 0 {
        lemma_encode_len(values.drop_last(), w);
        lemma_le_bytes_len(values.last() as nat, w.elem_size() as nat);
    }
}

/// The value of four bytes or fewer, written out.
proof fn lemma_le_value_of(b: Seq<u8>)
    requires
        b.len() <= 4,
    ensures
        b.len() == 1 ==> le_value(b) == b[0],
        b.len() == 2 ==> le_value(b) == b[0] + 256 * b[1],
        b.len() == 3 ==> le_value(b) == b[0] + 256 * b[1] + 65536 * b[2],
        b.len() == 4 ==> le_value(b) == b[0] + 256 * b[1] + 65536 * b[2] + 16777216 * b[3],
{
    reveal_with_fuel(le_value, 5);
}

/// A number comes back from its bytes at a width that holds it.
pub proof fn lemma_le_round_trip(v: u32, w: BitWidth)
    requires
        w.fits(v),
    ensures
        le_value(le_bytes(v as nat, w.elem_size() as nat)) == v,
{
    lemma_le_bytes_of(v as nat, w.elem_size() as nat);
    lemma_le_value_of(le_bytes(v as nat, w.elem_size() as nat));
}

/// The bytes of one element come back from the number that they are.
pub proof fn lemma_le_value_round_trip(b: Seq<u8>, w: BitWidth)
    requires
        b.len() == w.elem_size(),
    ensures
        w.fits(le_value(b) as u32),
        le_value(b) as u32 == le_value(b),
        le_bytes(le_value(b), w.elem_size() as nat) == b,
{
    lemma_le_value_of(b);
    lemma_le_bytes_of(le_value(b), w.elem_size() as nat);
    match w {
        BitWidth::U8 => {
            lemma_digits(b[0], 0, 0, 0);
        },
        BitWidth::U16 => {
            lemma_digits(b[0], b[1], 0, 0);
        },
        BitWidth::U24 => {
            lemma_digits(b[0], b[1], b[2], 0);
        },
        BitWidth::U32 => {
            lemma_digits(b[0], b[1], b[2], b[3]);
        },
    }
    assert(le_bytes(le_value(b), w.elem_size() as nat) =~= b);
}

/// The digits of a number in base 256.
proof fn lemma_digits(a: u8, b: u8, c: u8, d: u8)
    ensures
        ({
            let v = (a + 256 * b + 65536 * c + 16777216 * d) as nat;
            &&& v % 256 == a
            &&& v / 256 % 256 == b
            &&& v / 65536 % 256 == c
            &&& v / 16777216 % 256 == d
        }),
{
    let v = (a + 256 * b + 65536 * c + 16777216 * d) as nat;
    assert(v / 256 == b + 256 * c + 65536 * d);
    assert(v / 65536 == c + 256 * d);
    assert(v / 16777216 == d);
}

/// The little-endian bytes of a slot's value are those that are stored.
proof fn lemma_slot_bytes(bytes: Seq<u8>, w: BitWidth, i: int)
    requires
        0 <= i,
        w.bytes_for(i + 1) <= bytes.len(),
    ensures
        le_bytes(slot(bytes, w, i) as nat, w.elem_size() as nat) == bytes.subrange(
            w.bytes_for(i),
            w.bytes_for(i + 1),
        ),
{
    let at = w.bytes_for(i);
    let stored = bytes.subrange(at, w.bytes_for(i + 1));
    lemma_le_bytes_of(slot(bytes, w, i) as nat, w.elem_size() as nat);
    match w {
        BitWidth::U8 => {
            lemma_digits(bytes[at], 0, 0, 0);
        },
        BitWidth::U16 => {
            lemma_digits(bytes[at], bytes[at + 1], 0, 0);
        },
        BitWidth::U24 => {
            lemma_digits(bytes[at], bytes[at + 1], bytes[at + 2], 0);
        },
        BitWidth::U32 => {
            lemma_digits(bytes[at], bytes[at + 1], bytes[at + 2], bytes[at + 3]);
        },
    }
    assert(le_bytes(slot(bytes, w, i) as nat, w.elem_size() as nat) =~= stored);
}

/// The first `n` slots of a buffer are the packed form of their values.
pub proof fn lemma_slots_encode(bytes: Seq<u8>, w: BitWidth, n: nat)
    requires
        w.bytes_for(n as int) <= bytes.len(),
    ensures
        encode(slots(bytes, w, n), w) == bytes.take(w.bytes_for(n as int)),
    decreases n,
{
    let s = slots(bytes, w, n);
    if n == 0 {
        assert(bytes.take(0) =~= Seq::<u8>::empty());
    } else {
        let m = n - 1;
        lemma_slots_encode(bytes, w, m as nat);
        assert(s.drop_last() =~= slots(bytes, w, m as nat));
        lemma_slot_bytes(bytes, w, m);
        assert(bytes.take(w.bytes_for(n as int)) =~= bytes.take(w.bytes_for(m)) + bytes.subrange(
            w.bytes_for(m),
            w.bytes_for(n as int),
        ));
    }
}

/// Reads slot `idx` of a buffer of width `width`.
pub(crate) fn read_val(buf: &Vec<u8>, idx: usize, width: BitWidth) -> (v: u32)
    requires
        width.bytes_for(idx + 1) <= buf.len(),
    ensures
        v == slot(buf@, width, idx as int),
        width.fits(v),
    no_unwind
{
    match width {
        BitWidth::U8 => buf[idx] as u32,
        BitWidth::U16 => {
            let at: usize = idx * 2;
            buf[at] as u32 + 256 * (buf[at + 1] as u32)
        },
        BitWidth::U24 => {
            let at: usize = idx * 3;
            buf[at] as u32 + 256 * (buf[at + 1] as u32) + 65536 * (buf[at + 2] as u32)
        },
        BitWidth::U32 => {
            let at: usize = idx * 4;
            buf[at] as u32 + 256 * (buf[at + 1] as u32) + 65536 * (buf[at + 2] as u32) + 16777216
                * (buf[at + 3] as u32)
        },
    }
}

/// Writes `v` into slot `idx` of a buffer of width `width`; no byte outside that
/// slot changes.
pub(crate) fn write_val(buf: &mut Vec<u8>, idx: usize, v: u32, width: BitWidth)
    requires
        width.bytes_for(idx + 1) <= old(buf).len(),
        width.fits(v),
    ensures
        final(buf)@.len() == old(buf)@.len(),
        slot(final(buf)@, width, idx as int) == v,
        forall|k: int|
            0 <= k < old(buf)@.len() && !(width.bytes_for(idx as int) <= k < width.bytes_for(
                idx + 1,
            )) ==> #[trigger] final(buf)@[k] == old(buf)@[k],
        forall|j: int|
            j != idx && 0 <= j && width.bytes_for(j + 1) <= old(buf)@.len() ==> #[trigger] slot(
                final(buf)@,
                width,
                j,
            ) == slot(old(buf)@, width, j),
    no_unwind
{
    match width {
        BitWidth::U8 => {
            buf[idx] = v as u8;
        },
        BitWidth::U16 => {
            let at: usize = idx * 2;
            buf[at] = (v % 256) as u8;
            buf[at + 1] = (v / 256) as u8;
        },
        BitWidth::U24 => {
            let at: usize = idx * 3;
            buf[at] = (v % 256) as u8;
            buf[at + 1] = (v / 256 % 256) as u8;
            buf[at + 2] = (v / 65536) as u8;
        },
        BitWidth::U32 => {
            let at: usize = idx * 4;
            buf[at] = (v % 256) as u8;
            buf[at + 1] = (v / 256 % 256) as u8;
            buf[at + 2] = (v / 65536 % 256) as u8;
            buf[at + 3] = (v / 16777216) as u8;
        },
    }
}

} // verus!
