# compact_vec

A `Vec<u32>`-like container that stores every element in the narrowest of four
byte widths that has been needed so far, and re-encodes its elements when a value
asks for a wider one.

| All values fit in | Bytes per element | Saved against `Vec<u32>` |
| ----------------- | ----------------- | ------------------------ |
| 0 - 255           | 1                 | 75 %                     |
| 0 - 65 535        | 2                 | 50 %                     |
| 0 - 16 777 215    | 3                 | 25 %                     |
| 0 - 4 294 967 295 | 4                 | -                        |

The library under `src/` is written in Verus; its contracts are proved.

* `width.rs`: the four widths and their order.
* `codec.rs`: little-endian packing into a flat byte buffer.
* `model.rs`: what the operations compute, over sequences and numbers.
* `vector.rs`, `vector/`: `CompactVec` and its iterators. A vector is seen as the
  sequence of its elements with a capacity and a width.
* `laws.rs`, `laws/`: what holds of the library as a whole.
* `std_sort.rs`, `vector/format.rs`: what is taken on trust of the standard
  library, namely its slice sorts and its writer of debug lists.

A buffer may not be larger than `isize::MAX` bytes. The functions that grow one ask
for this in `requires`; `CompactVec::can_push` tests it at run time.

`app/` adds serde and the generic collection traits on a type around
`CompactVec`. It serialises the elements one after the other as a sequence of
`u32`, which is the form of a `Vec<u32>`; `tests/wire.rs` carries the elements over
MessagePack as such a `Vec<u32>`, and the impls in `app/` are not verified.
