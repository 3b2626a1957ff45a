//! Laws of element access: what one operation gives back of another.
use vstd::prelude::*;

use crate::model::{deduped, lookup, selected, truncated};

verus! {

/// `get` gives a value exactly if it stands at that place, and nothing exactly if
/// the place is not one of the vector.
pub proof fn law_get(s: Seq<u32>, i: int, v: u32)
    ensures
        lookup(s, i) == Some(v) <==> 0 <= i < s.len() && s[i] == v,
        lookup(s, i) is None <==> i < 0 || i >= s.len(),
{
}

/// After `push`, the value stands at the end and every other place reads as
/// before.
pub proof fn law_get_after_push(s: Seq<u32>, v: u32, i: int)
    ensures
        lookup(s.push(v), s.len() as int) == Some(v),
        i != s.len() ==> lookup(s.push(v), i) == lookup(s, i),
{
}

/// After `set`, the value stands at its place and every other place reads as
/// before.
pub proof fn law_get_after_set(s: Seq<u32>, at: int, v: u32, i: int)
    requires
        0 <= at < s.len(),
    ensures
        lookup(s.update(at, v), at) == Some(v),
        i != at ==> lookup(s.update(at, v), i) == lookup(s, i),
{
}

/// `pop` gives back the value that was pushed and leaves what was there before.
pub proof fn law_pop_undoes_push(s: Seq<u32>, v: u32)
    ensures
        lookup(s.push(v), s.push(v).len() - 1) == Some(v),
        truncated(s.push(v), s.push(v).len() - 1) == s,
{
    assert(s.push(v).take(s.len() as int) =~= s);
}

/// After `remove`, the places before read as before and those behind have moved
/// up by one.
pub proof fn law_get_after_remove(s: Seq<u32>, at: int, i: int)
    requires
        0 <= at < s.len(),
    ensures
        s.remove(at).len() == s.len() - 1,
        i < at ==> lookup(s.remove(at), i) == lookup(s, i),
        i >= at ==> lookup(s.remove(at), i) == lookup(s, i + 1),
{
}

/// After `truncate`, the places that are left read as before.
pub proof fn law_get_after_truncate(s: Seq<u32>, n: nat, i: int)
    ensures
        truncated(s, n as int).len() == if n < s.len() {
            n
        } else {
            s.len()
        },
        i < n ==> lookup(truncated(s, n as int), i) == lookup(s, i),
        i >= n ==> lookup(truncated(s, n as int), i) is None,
{
}

/// `truncate` cuts off the end and nothing else; what was cut off, appended again,
/// makes the vector whole. A second `truncate` counts only if it asks for less.
pub proof fn law_truncate_is_prefix(s: Seq<u32>, n: nat, m: nat)
    ensures
        n <= s.len() ==> truncated(s, n as int) + s.skip(n as int) == s,
        n >= s.len() ==> truncated(s, n as int) == s,
        truncated(truncated(s, n as int), m as int) == truncated(
            s,
            if n < m {
                n as int
            } else {
                m as int
            },
        ),
{
}

/// Of the positions of a vector, `retain` keeps exactly those that were answered
/// with `true`, in their order: what is left is the elements that stood there.
pub proof fn law_retain_keeps_answered(s: Seq<u32>, keep: Seq<bool>)
    requires
        keep.len() == s.len(),
    ensures
        selected(s, keep) == Seq::new(s.len(), |i: int| i).filter(|i: int| keep[i]).map_values(
            |i: int| s[i],
        ),
{
    lemma_selected_positions(s, keep, s.len() as int, |i: int| keep[i], |i: int| s[i]);
    assert(s.take(s.len() as int) =~= s);
}

proof fn lemma_selected_positions(
    s: Seq<u32>,
    keep: Seq<bool>,
    n: int,
    kept: spec_fn(int) -> bool,
    at: spec_fn(int) -> u32,
)
    requires
        0 <= n <= s.len(),
        keep.len() == s.len(),
        forall|i: int| #[trigger] kept(i) == keep[i],
        forall|i: int| #[trigger] at(i) == s[i],
    ensures
        selected(s.take(n), keep) == Seq::new(n as nat, |i: int| i).filter(kept).map_values(at),
    decreases n,
{
    reveal(Seq::filter);
    let places = Seq::new(n as nat, |i: int| i);
    if n > 0 {
        lemma_selected_positions(s, keep, n - 1, kept, at);
        let before = Seq::new((n - 1) as nat, |i: int| i);
        assert(places.drop_last() =~= before);
        assert(s.take(n).drop_last() =~= s.take(n - 1));
        assert(places.filter(kept).map_values(at) =~= if kept(n - 1) {
            before.filter(kept).map_values(at).push(s[n - 1])
        } else {
            before.filter(kept).map_values(at)
        });
    }
}

/// Of the calls that `retain` makes, one for each element, those that answered
/// `true` give what is left: the values that they asked about, in their order.
pub proof fn law_retain_by_calls(s: Seq<u32>, calls: Seq<(u32, bool)>)
    requires
        calls.map_values(|call: (u32, bool)| call.0) == s,
    ensures
        selected(s, calls.map_values(|call: (u32, bool)| call.1)) == calls.filter(
            |call: (u32, bool)| call.1,
        ).map_values(|call: (u32, bool)| call.0),
{
    let asked = |call: (u32, bool)| call.0;
    let answered = |call: (u32, bool)| call.1;
    let keep = calls.map_values(answered);
    lemma_selected_by_calls(calls, keep, calls.len() as int, asked, answered);
    assert(calls.take(calls.len() as int) =~= calls);
    assert(calls.map_values(asked).take(calls.len() as int) =~= s);
}

proof fn lemma_selected_by_calls(
    calls: Seq<(u32, bool)>,
    keep: Seq<bool>,
    n: int,
    asked: spec_fn((u32, bool)) -> u32,
    answered: spec_fn((u32, bool)) -> bool,
)
    requires
        0 <= n <= calls.len(),
        keep == calls.map_values(answered),
    ensures
        selected(calls.map_values(asked).take(n), keep) == calls.take(n).filter(
            answered,
        ).map_values(asked),
    decreases n,
{
    reveal(Seq::filter);
    let part = calls.take(n);
    if n > 0 {
        lemma_selected_by_calls(calls, keep, n - 1, asked, answered);
        let before = calls.take(n - 1);
        assert(part.drop_last() =~= before);
        assert(calls.map_values(asked).take(n).drop_last() =~= calls.map_values(asked).take(n - 1));
        assert(part.filter(answered).map_values(asked) =~= if answered(calls[n - 1]) {
            before.filter(answered).map_values(asked).push(asked(calls[n - 1]))
        } else {
            before.filter(answered).map_values(asked)
        });
    }
}

/// Where `f` is a predicate, `retain` keeps what a filter by it keeps.
pub proof fn law_retain_is_filter(s: Seq<u32>, keep: Seq<bool>, p: spec_fn(u32) -> bool)
    requires
        keep.len() == s.len(),
        forall|i: int| 0 <= i < s.len() ==> #[trigger] keep[i] == p(s[i]),
    ensures
        selected(s, keep) == s.filter(p),
{
    lemma_selected_is_filter(s, keep, p);
}

proof fn lemma_selected_is_filter(s: Seq<u32>, keep: Seq<bool>, p: spec_fn(u32) -> bool)
    requires
        keep.len() >= s.len(),
        forall|i: int| 0 <= i < s.len() ==> #[trigger] keep[i] == p(s[i]),
    ensures
        selected(s, keep) == s.filter(p),
    decreases s.len(),
{
    reveal(Seq::filter);
    if s.len() > 0 {
        assert(keep[s.len() - 1] == p(s[s.len() - 1]));
        lemma_selected_is_filter(s.drop_last(), keep, p);
    }
}

/// `dedup` leaves exactly the elements that differ from the one just before them
/// in the vector, and the first: each of them once, in their order.
pub proof fn law_dedup_keeps_changes(s: Seq<u32>)
    ensures
        deduped(s) == Seq::new(s.len(), |i: int| i).filter(
            |i: int| i == 0 || s[i] != s[i - 1],
        ).map_values(|i: int| s[i]),
{
    lemma_deduped_positions(
        s,
        s.len() as int,
        |i: int| i == 0 || s[i] != s[i - 1],
        |i: int| s[i],
    );
    assert(s.take(s.len() as int) =~= s);
}

proof fn lemma_deduped_positions(
    s: Seq<u32>,
    n: int,
    kept: spec_fn(int) -> bool,
    at: spec_fn(int) -> u32,
)
    requires
        0 <= n <= s.len(),
        forall|i: int| #[trigger] kept(i) == (i == 0 || s[i] != s[i - 1]),
        forall|i: int| #[trigger] at(i) == s[i],
    ensures
        deduped(s.take(n)) == Seq::new(n as nat, |i: int| i).filter(kept).map_values(at),
    decreases n,
{
    reveal(Seq::filter);
    let places = Seq::new(n as nat, |i: int| i);
    if n > 0 {
        lemma_deduped_positions(s, n - 1, kept, at);
        let before = Seq::new((n - 1) as nat, |i: int| i);
        assert(places.drop_last() =~= before);
        assert(s.take(n).drop_last() =~= s.take(n - 1));
        assert(deduped(s.take(n)) =~= if kept(n - 1) {
            deduped(s.take(n - 1)).push(s[n - 1])
        } else {
            deduped(s.take(n - 1))
        });
        assert(places.filter(kept).map_values(at) =~= if kept(n - 1) {
            before.filter(kept).map_values(at).push(s[n - 1])
        } else {
            before.filter(kept).map_values(at)
        });
    }
}

/// One more value adds itself to what `dedup` leaves, unless it equals the last
/// one; an equal value further up does not matter.
pub proof fn law_dedup_after_push(s: Seq<u32>, v: u32)
    ensures
        deduped(Seq::<u32>::empty()) == Seq::<u32>::empty(),
        s.len() > 0 && v == s.last() ==> deduped(s.push(v)) == deduped(s),
        s.len() == 0 || v != s.last() ==> deduped(s.push(v)) == deduped(s).push(v),
{
    assert(s.push(v).drop_last() =~= s);
}

/// What `dedup` does to a vector it does to each of its parts: two runs that do
/// not meet in equal values are treated as if the other were not there.
pub proof fn law_dedup_of_parts(a: Seq<u32>, b: Seq<u32>)
    requires
        a.len() == 0 || b.len() == 0 || a.last() != b.first(),
    ensures
        deduped(a + b) == deduped(a) + deduped(b),
    decreases b.len(),
{
    if b.len() == 0 {
        assert(a + b =~= a);
    } else {
        let rest = b.drop_last();
        law_dedup_of_parts(a, rest);
        assert(a + b =~= (a + rest).push(b.last()));
        assert(b =~= rest.push(b.last()));
        law_dedup_after_push(a + rest, b.last());
        law_dedup_after_push(rest, b.last());
    }
}

/// After `dedup` no element equals the one before it, the first and the last
/// value are those of before, no value is lost and none is new.
pub proof fn law_dedup(s: Seq<u32>)
    ensures
        deduped(s).len() <= s.len(),
        forall|i: int, j: int|
            #![trigger deduped(s)[i], deduped(s)[j]]
            0 <= i && j == i + 1 && j < deduped(s).len() ==> deduped(s)[i] != deduped(s)[j],
        s.len() > 0 ==> deduped(s).len() > 0 && deduped(s)[0] == s[0] && deduped(s).last()
            == s.last(),
        forall|v: u32| #[trigger] deduped(s).contains(v) <==> s.contains(v),
    decreases s.len(),
{
    if s.len() >= 2 {
        let rest = s.drop_last();
        law_dedup(rest);
        assert(rest.last() == s[s.len() - 2]);
        assert forall|v: u32| #[trigger] deduped(s).contains(v) <==> s.contains(v) by {
            assert(deduped(rest).contains(v) <==> rest.contains(v));
            lemma_contains_by_last(s, v);
            if s[s.len() - 1] == s[s.len() - 2] {
                if s.last() == v {
                    assert(rest[rest.len() - 1] == v);
                }
            } else {
                let d = deduped(s);
                lemma_contains_by_last(d, v);
                assert(d.drop_last() =~= deduped(rest));
            }
        }
    }
}

proof fn lemma_contains_by_last(s: Seq<u32>, v: u32)
    requires
        s.len() > 0,
    ensures
        s.contains(v) <==> s.drop_last().contains(v) || s.last() == v,
{
    if s.contains(v) {
        let i = choose|i: int| 0 <= i < s.len() && s[i] == v;
        if i < s.len() - 1 {
            assert(s.drop_last()[i] == v);
        }
    }
    if s.drop_last().contains(v) {
        let i = choose|i: int| 0 <= i < s.drop_last().len() && s.drop_last()[i] == v;
        assert(s[i] == v);
    }
    if s.last() == v {
        assert(s[s.len() - 1] == v);
    }
}

/// A second `dedup` changes nothing: neighbours that differ are left alone.
pub proof fn law_dedup_is_idempotent(s: Seq<u32>)
    ensures
        deduped(deduped(s)) == deduped(s),
{
    law_dedup(s);
    lemma_distinct_neighbours_stay(deduped(s));
}

proof fn lemma_distinct_neighbours_stay(s: Seq<u32>)
    requires
        forall|i: int, j: int|
            #![trigger s[i], s[j]]
            0 <= i && j == i + 1 && j < s.len() ==> s[i] != s[j],
    ensures
        deduped(s) == s,
    decreases s.len(),
{
    if s.len() >= 2 {
        let rest = s.drop_last();
        assert forall|i: int, j: int|
            #![trigger rest[i], rest[j]]
            0 <= i && j == i + 1 && j < rest.len() implies rest[i] != rest[j] by {
            assert(s[i] != s[j]);
        }
        lemma_distinct_neighbours_stay(rest);
        assert(s[s.len() - 2] != s[s.len() - 1]);
        assert(rest.push(s.last()) =~= s);
    }
}

} // verus!
