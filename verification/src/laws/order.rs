//! Laws of sorted vectors.
use vstd::prelude::*;

use crate::model::{deduped, search_outcome, sorted, width_covering};
use crate::width::BitWidth;

verus! {

/// There is one sorted order: two sorted sequences of the same numbers are the
/// same. Both sorts therefore end alike, and sorting what is sorted changes
/// nothing.
pub proof fn law_sorted_order_is_unique(a: Seq<u32>, b: Seq<u32>)
    requires
        sorted(a),
        sorted(b),
        a.to_multiset() == b.to_multiset(),
    ensures
        a == b,
    decreases a.len(),
{
    vstd::seq_lib::to_multiset_len(a);
    vstd::seq_lib::to_multiset_len(b);
    if a.len() == 0 {
        assert(a =~= b);
    } else {
        let n = a.len() as int;
        lemma_last_is_max(a, b);
        lemma_last_is_max(b, a);
        assert(a.last() == b.last());
        assert(a.remove(n - 1) =~= a.drop_last());
        assert(b.remove(n - 1) =~= b.drop_last());
        vstd::seq_lib::to_multiset_remove(a, n - 1);
        vstd::seq_lib::to_multiset_remove(b, n - 1);
        law_sorted_order_is_unique(a.drop_last(), b.drop_last());
        assert(a =~= a.drop_last().push(a.last()));
        assert(b =~= b.drop_last().push(b.last()));
    }
}

/// The last of a sorted sequence is not below any number of a reordering of it.
proof fn lemma_last_is_max(a: Seq<u32>, b: Seq<u32>)
    requires
        sorted(a),
        a.len() > 0,
        b.len() > 0,
        a.to_multiset() == b.to_multiset(),
    ensures
        b.last() <= a.last(),
{
    let v = b.last();
    assert(b[b.len() - 1] == v);
    assert(b.contains(v));
    vstd::seq_lib::to_multiset_contains(b, v);
    vstd::seq_lib::to_multiset_contains(a, v);
    let k = choose|k: int| 0 <= k < a.len() && a[k] == v;
    if k < a.len() - 1 {
        assert(a[k] <= a[a.len() - 1]);
    }
}

/// On a sorted vector a search succeeds exactly if the value is there.
pub proof fn law_search_finds(s: Seq<u32>, value: u32, r: Result<usize, usize>)
    requires
        search_outcome(s, value, r),
    ensures
        r is Ok <==> s.contains(value),
{
    match r {
        Ok(i) => {
            assert(s[i as int] == value);
        },
        Err(i) => {
            if s.contains(value) {
                let k = choose|k: int| 0 <= k < s.len() && s[k] == value;
                if k < i {
                    assert(s[k] < value);
                } else {
                    assert(value < s[k]);
                }
            }
        },
    }
}

/// Inserting a value at the place that a failed search gives keeps the order;
/// and when the value is appended and all is sorted, that is where it ends up.
pub proof fn law_insert_at_search_place(s: Seq<u32>, value: u32, at: usize, t: Seq<u32>)
    requires
        sorted(s),
        search_outcome(s, value, Err(at)),
    ensures
        sorted(s.insert(at as int, value)),
        sorted(t) && t.to_multiset() == s.push(value).to_multiset() ==> t == s.insert(
            at as int,
            value,
        ) && t[at as int] == value,
{
    let i = at as int;
    let with = s.insert(i, value);
    s.insert_ensures(i, value);
    assert forall|x: int, y: int| #![trigger with[x], with[y]] 0 <= x < y < with.len() implies with[x]
        <= with[y] by {
        let sx = if x < i {
            x
        } else {
            x - 1
        };
        let sy = if y < i {
            y
        } else {
            y - 1
        };
        if x == i {
            assert(with[y] == s[y - 1]);
            assert(value < s[y - 1]);
        } else if y == i {
            assert(s[x] < value);
        } else {
            assert(with[x] == s[sx]);
            assert(with[y] == s[sy]);
            assert(sx < sy ==> s[sx] <= s[sy]);
        }
    }
    if sorted(t) && t.to_multiset() == s.push(value).to_multiset() {
        vstd::seq_lib::to_multiset_insert(s, i, value);
        vstd::seq_lib::to_multiset_build(s, value);
        law_sorted_order_is_unique(t, with);
    }
}

/// After `dedup` of a sorted vector every value stands once, in strictly
/// ascending order.
pub proof fn law_dedup_of_sorted(s: Seq<u32>)
    requires
        sorted(s),
    ensures
        forall|i: int, j: int|
            #![trigger deduped(s)[i], deduped(s)[j]]
            0 <= i < j < deduped(s).len() ==> deduped(s)[i] < deduped(s)[j],
    decreases s.len(),
{
    if s.len() >= 2 {
        let rest = s.drop_last();
        law_dedup_of_sorted(rest);
        crate::laws::access::law_dedup(rest);
        let d = deduped(rest);
        assert(d.last() == s[s.len() - 2]);
        assert(s[s.len() - 2] <= s[s.len() - 1]);
        if s[s.len() - 1] != s[s.len() - 2] {
            assert forall|i: int, j: int|
                #![trigger deduped(s)[i], deduped(s)[j]]
                0 <= i < j < deduped(s).len() implies deduped(s)[i] < deduped(s)[j] by {
                if j < d.len() {
                    assert(d[i] < d[j]);
                } else if i < d.len() - 1 {
                    assert(d[i] < d[d.len() - 1]);
                }
            }
        }
    }
}

/// The last of sorted values decides the width: it is the one that appending them
/// one by one arrives at.
pub proof fn law_sorted_width(s: Seq<u32>)
    requires
        sorted(s),
        s.len() > 0,
    ensures
        width_covering(BitWidth::U8, s) == BitWidth::width_for(s.last()),
    decreases s.len(),
{
    let rest = s.drop_last();
    if rest.len() > 0 {
        law_sorted_width(rest);
        assert(rest.last() == s[s.len() - 2]);
        assert(s[s.len() - 2] <= s[s.len() - 1]);
    } else {
        assert(width_covering(BitWidth::U8, rest) == BitWidth::U8);
    }
}

/// A vector is sorted exactly if no element is below the one before it.
pub proof fn law_sorted_by_neighbours(s: Seq<u32>)
    ensures
        sorted(s) <==> forall|i: int| 0 < i < s.len() ==> s[i - 1] <= #[trigger] s[i],
{
    if forall|i: int| 0 < i < s.len() ==> s[i - 1] <= #[trigger] s[i] {
        assert forall|i: int, j: int| #![trigger s[i], s[j]] 0 <= i < j < s.len() implies s[i]
            <= s[j] by {
            lemma_ascends(s, i, j);
        }
    }
}

proof fn lemma_ascends(s: Seq<u32>, i: int, j: int)
    requires
        0 <= i <= j < s.len(),
        forall|i: int| 0 < i < s.len() ==> s[i - 1] <= #[trigger] s[i],
    ensures
        s[i] <= s[j],
    decreases j - i,
{
    if i < j {
        lemma_ascends(s, i, j - 1);
        assert(s[j - 1] <= s[j]);
    }
}

/// A search that fails gives the number of elements below the value, and these
/// are all that are not above it; one that succeeds gives a place of the value.
pub proof fn law_search_place(s: Seq<u32>, value: u32, r: Result<usize, usize>)
    requires
        search_outcome(s, value, r),
    ensures
        r matches Ok(i) ==> i < s.len() && s[i as int] == value,
        r matches Err(i) ==> i <= s.len() && i == s.filter(|x: u32| x < value).len() && i
            == s.filter(|x: u32| x <= value).len(),
{
    if let Err(i) = r {
        lemma_count_below(s, i as int, s.len() as int, |x: u32| x < value);
        lemma_count_below(s, i as int, s.len() as int, |x: u32| x <= value);
        assert(s.take(s.len() as int) =~= s);
    }
}

/// Where the first `at` elements meet `p` and the others do not, `at` is how many
/// of them do.
proof fn lemma_count_below(s: Seq<u32>, at: int, n: int, p: spec_fn(u32) -> bool)
    requires
        0 <= at <= s.len(),
        0 <= n <= s.len(),
        forall|k: int| 0 <= k < at ==> p(#[trigger] s[k]),
        forall|k: int| at <= k < s.len() ==> !p(#[trigger] s[k]),
    ensures
        s.take(n).filter(p).len() == if n < at {
            n
        } else {
            at
        },
    decreases n,
{
    reveal(Seq::filter);
    if n > 0 {
        lemma_count_below(s, at, n - 1, p);
        assert(s.take(n).drop_last() =~= s.take(n - 1));
        assert(s.take(n).last() == s[n - 1]);
    }
}

} // verus!
