//! Sorting: the stable order every sort opcode produces, and the
//! trusted wrappers around std's stable sorts. A stable sort is pinned
//! uniquely by sortedness plus stability, so the contracts state the
//! result exactly as the insertion-sorted rearrangement of the input
//! values.
use rayon::slice::ParallelSliceMut;
use vstd::prelude::*;

use crate::order::cmp_value;
use crate::value::cmp_abs;
use crate::value::fkey;
use crate::value::TinValue;

verus! {

/// Whether `a` may stay before `b` in a sort of the given direction.
pub open spec fn keeps_order(a: TinValue, b: TinValue, desc: bool) -> bool {
    if desc {
        cmp_abs(a.am(), b.am()) >= 0
    } else {
        cmp_abs(a.am(), b.am()) <= 0
    }
}

/// Stable insertion of `x` into a sorted sequence: after every element
/// it may follow.
pub open spec fn place(x: TinValue, t: Seq<TinValue>, desc: bool) -> Seq<TinValue>
    decreases t.len(),
{
    if t.len() == 0 {
        seq![x]
    } else if keeps_order(t.first(), x, desc) {
        seq![t.first()] + place(x, t.drop_first(), desc)
    } else {
        seq![x] + t
    }
}

/// The stable sort of a sequence of values, by the total value order.
pub open spec fn stable_sorted(s: Seq<TinValue>, desc: bool) -> Seq<TinValue>
    decreases s.len(),
{
    if s.len() == 0 {
        Seq::empty()
    } else {
        place(s.last(), stable_sorted(s.drop_last(), desc), desc)
    }
}

/// Stable insertion of an indexed value, ordered by the value.
pub open spec fn place_pair(x: (i64, TinValue), t: Seq<(i64, TinValue)>, desc: bool) -> Seq<
    (i64, TinValue),
>
    decreases t.len(),
{
    if t.len() == 0 {
        seq![x]
    } else if keeps_order(t.first().1, x.1, desc) {
        seq![t.first()] + place_pair(x, t.drop_first(), desc)
    } else {
        seq![x] + t
    }
}

/// The stable sort of indexed values, by the value.
pub open spec fn stable_sorted_pairs(s: Seq<(i64, TinValue)>, desc: bool) -> Seq<(i64, TinValue)>
    decreases s.len(),
{
    if s.len() == 0 {
        Seq::empty()
    } else {
        place_pair(s.last(), stable_sorted_pairs(s.drop_last(), desc), desc)
    }
}

/// Stable insertion of an integer.
pub open spec fn place_i64(x: i64, t: Seq<i64>, desc: bool) -> Seq<i64>
    decreases t.len(),
{
    if t.len() == 0 {
        seq![x]
    } else if (desc && t.first() >= x) || (!desc && t.first() <= x) {
        seq![t.first()] + place_i64(x, t.drop_first(), desc)
    } else {
        seq![x] + t
    }
}

/// The sort of a sequence of integers.
pub open spec fn sorted_i64(s: Seq<i64>, desc: bool) -> Seq<i64>
    decreases s.len(),
{
    if s.len() == 0 {
        Seq::empty()
    } else {
        place_i64(s.last(), sorted_i64(s.drop_last(), desc), desc)
    }
}

/// Stable insertion of a float pattern, by key order.
pub open spec fn place_fbits(x: u64, t: Seq<u64>, desc: bool) -> Seq<u64>
    decreases t.len(),
{
    if t.len() == 0 {
        seq![x]
    } else if (desc && fkey(t.first()) >= fkey(x)) || (!desc && fkey(t.first()) <= fkey(x)) {
        seq![t.first()] + place_fbits(x, t.drop_first(), desc)
    } else {
        seq![x] + t
    }
}

/// The stable sort of float patterns, by key order.
pub open spec fn sorted_fbits(s: Seq<u64>, desc: bool) -> Seq<u64>
    decreases s.len(),
{
    if s.len() == 0 {
        Seq::empty()
    } else {
        place_fbits(s.last(), sorted_fbits(s.drop_last(), desc), desc)
    }
}

/// Content on which the value comparison is a total preorder: either
/// every reachable scalar is an integer (exact comparison), or every
/// reachable integer has magnitude at most 2^53 (the cast to a double
/// is then exact, so the cross-kind comparison embeds all scalars
/// consistently into one number line). Outside this set the comparison
/// can be intransitive: two distinct large integers both compare equal
/// to the double they round to.
pub open spec fn sort_safe(s: Seq<TinValue>) -> bool {
    (forall|i: int| 0 <= i < s.len() ==> crate::value::int_only(#[trigger] s[i].am())) || (forall|
        i: int,
    |
        0 <= i < s.len() ==> crate::value::num_small(#[trigger] s[i].am()))
}

/// The pair form of `sort_safe`, over the value components.
pub open spec fn pairs_safe(s: Seq<(i64, TinValue)>) -> bool {
    (forall|i: int|
        0 <= i < s.len() ==> crate::value::int_only(#[trigger] s[i].1.am())) || (forall|i: int|
        0 <= i < s.len() ==> crate::value::num_small(#[trigger] s[i].1.am()))
}

/// Relies on rayon's `par_sort_by`, a stable merge sort that never
/// inspects comparator consistency: it always returns some arrangement
/// of the same values, and where the comparison is a total preorder
/// (`sort_safe`) its documented stable order is pinned uniquely to the
/// insertion-sorted rearrangement. Below its internal chunk sizes the
/// merge runs sequentially, so one routine serves both paths.
#[verifier::external_body]
pub fn sort_values_stable(v: &mut Vec<TinValue>, desc: bool)
    ensures
        final(v)@.to_multiset() == old(v)@.to_multiset(),
        sort_safe(old(v)@) ==> final(v)@ == stable_sorted(old(v)@, desc),
{
    v.par_sort_by(
        |a, b| if desc {
            cmp_i8_to_ordering(cmp_value(b, a))
        } else {
            cmp_i8_to_ordering(cmp_value(a, b))
        },
    );
}

/// Relies on rayon's `par_sort_by` over indexed values, ordered by the
/// value component; the same permutation and guarded-stability claims
/// as the value sort.
#[verifier::external_body]
pub fn sort_pairs_stable(v: &mut Vec<(i64, TinValue)>, desc: bool)
    ensures
        final(v)@.to_multiset() == old(v)@.to_multiset(),
        pairs_safe(old(v)@) ==> final(v)@ == stable_sorted_pairs(old(v)@, desc),
{
    v.par_sort_by(
        |a, b| if desc {
            cmp_i8_to_ordering(cmp_value(&b.1, &a.1))
        } else {
            cmp_i8_to_ordering(cmp_value(&a.1, &b.1))
        },
    );
}

/// Relies on `slice::sort` / `sort_by` over integers (a stable sort).
#[verifier::external_body]
pub fn sort_ints(v: &mut Vec<i64>, desc: bool)
    ensures
        final(v)@ == sorted_i64(old(v)@, desc),
{
    if desc {
        v.sort_by(|a, b| b.cmp(a));
    } else {
        v.sort();
    }
}

/// Relies on `slice::sort_by` over float patterns, ordered by the total
/// key order (a stable sort).
#[verifier::external_body]
pub fn sort_fbits(v: &mut Vec<u64>, desc: bool)
    ensures
        final(v)@ == sorted_fbits(old(v)@, desc),
{
    v.sort_by(
        |a, b| if desc {
            fcmp_keys(*b, *a)
        } else {
            fcmp_keys(*a, *b)
        },
    );
}

/// Maps a three-way comparison to `Ordering` (for the sort wrappers).
fn cmp_i8_to_ordering(c: i8) -> core::cmp::Ordering {
    if c < 0 {
        core::cmp::Ordering::Less
    } else if c == 0 {
        core::cmp::Ordering::Equal
    } else {
        core::cmp::Ordering::Greater
    }
}

/// Compares two float patterns by key order (for the sort wrappers).
fn fcmp_keys(a: u64, b: u64) -> core::cmp::Ordering {
    let ka = crate::order::fl_key_cmp(a, b);
    if ka < 0 {
        core::cmp::Ordering::Less
    } else if ka == 0 {
        core::cmp::Ordering::Equal
    } else {
        core::cmp::Ordering::Greater
    }
}

} // verus!
