//! Uniqueness, frequency counts and deep flattening. These bodies are
//! verified for safety and stack shape; their full value-level
//! statements live in the sort and count specs they build on.
use vstd::prelude::*;

use crate::errors::TinError;
use crate::ops_agg::count_eq;
use crate::ops_agg::count_i64;
use crate::ops_stack::rep_items;
use crate::value::fkey;
use crate::value::i2f_bits;
use crate::value::RepVal;
use crate::vector::rep_elem;
use crate::vector::rep_len;
use crate::fbits::fl_of_int;
use crate::fbits::fl_eq;
use crate::ops_stack::rep_is_vec;
use crate::order::cmp_value;
use crate::sorts::sort_fbits;
use crate::sorts::sort_safe;
use crate::sorts::sort_values_stable;
use crate::value::eq_value;
use crate::value::TinValue;
use crate::vector::clone_value;

verus! {

broadcast use vstd::std_specs::vec::group_vec_axioms;

/// A sorted sequence of values with comparison-equal neighbours
/// collapsed (the first of each run stays).
pub open spec fn dedup_adj(s: Seq<TinValue>) -> Seq<TinValue>
    decreases s.len(),
{
    if s.len() == 0 {
        Seq::empty()
    } else if s.len() >= 2 && crate::value::cmp_abs(s[s.len() - 2].am(), s.last().am()) == 0 {
        dedup_adj(s.drop_last())
    } else {
        dedup_adj(s.drop_last()) + seq![s.last()]
    }
}

/// A sorted sequence of float patterns with equal neighbours collapsed
/// (NaN patterns never equal anything, so they all stay).
pub open spec fn dedup_feq(s: Seq<u64>) -> Seq<u64>
    decreases s.len(),
{
    if s.len() == 0 {
        Seq::empty()
    } else if s.len() >= 2 && crate::value::feq_bits(s[s.len() - 2], s.last()) {
        dedup_feq(s.drop_last())
    } else {
        dedup_feq(s.drop_last()) + seq![s.last()]
    }
}

/// The first occurrences of a sequence of integers, in order.
pub open spec fn first_occurrences(s: Seq<i64>) -> Seq<i64>
    decreases s.len(),
{
    if s.len() == 0 {
        Seq::empty()
    } else if s.drop_last().contains(s.last()) {
        first_occurrences(s.drop_last())
    } else {
        first_occurrences(s.drop_last()) + seq![s.last()]
    }
}

/// The first occurrences hold exactly the values of the sequence.
proof fn lemma_first_occurrences_contains(s: Seq<i64>, x: i64)
    ensures
        first_occurrences(s).contains(x) == s.contains(x),
    decreases s.len(),
{
    if s.len() > 0 {
        let dl = s.drop_last();
        lemma_first_occurrences_contains(dl, x);
        assert(s.contains(x) == (dl.contains(x) || s.last() == x)) by {
            if s.contains(x) {
                let i = choose|i: int| 0 <= i < s.len() && s[i] == x;
                if i < s.len() - 1 {
                    assert(dl[i] == x);
                }
            }
            if dl.contains(x) {
                let i = choose|i: int| 0 <= i < dl.len() && dl[i] == x;
                assert(s[i] == x);
            }
            if s.last() == x {
                assert(s[s.len() - 1] == x);
            }
        }
        if dl.contains(s.last()) {
            assert(first_occurrences(s) == first_occurrences(dl));
            if s.last() == x {
                assert(dl.contains(x));
            }
        } else {
            let f = first_occurrences(s);
            let fd = first_occurrences(dl);
            assert(f == fd + seq![s.last()]);
            assert(f.contains(x) == (fd.contains(x) || s.last() == x)) by {
                if f.contains(x) {
                    let i = choose|i: int| 0 <= i < f.len() && f[i] == x;
                    if i < fd.len() {
                        assert(fd[i] == x);
                    } else {
                        assert(f[i] == s.last());
                    }
                }
                if fd.contains(x) {
                    let i = choose|i: int| 0 <= i < fd.len() && fd[i] == x;
                    assert(f[i] == x);
                }
                if s.last() == x {
                    assert(f[f.len() - 1] == x);
                }
            }
        }
    }
}

/// Pops a vector and pushes it with duplicates removed: a general
/// vector comes back sorted ascending with one element per equal run; an
/// integer vector keeps first occurrences; a float vector comes back
/// key-sorted with equal neighbours collapsed.
#[verifier::loop_isolation(false)]
pub fn op_unique(stack: &mut Vec<TinValue>) -> (r: Result<(), TinError>)
    ensures
        r is Err ==> (r->Err_0 == TinError::EmptyStack || r->Err_0 == TinError::NotAVector),
        r is Ok <==> (old(stack)@.len() > 0 && rep_is_vec(old(stack)@.last()@)),
        r is Ok ==> final(stack)@.len() == old(stack)@.len() && final(stack)@.drop_last() == old(
            stack,
        )@.drop_last(),
        r is Ok && old(stack)@.last() is Vector && sort_safe(old(stack)@.last()->Vector_0@)
            ==> final(stack)@.last()@ == RepVal::Vector(
            crate::value::rep_seq(
                dedup_adj(crate::sorts::stable_sorted(old(stack)@.last()->Vector_0@, false)),
            ),
        ),
        r is Ok && old(stack)@.last() is IntVector ==> (final(stack)@.last()
            matches TinValue::IntVector(out) && out@ == first_occurrences(
            old(stack)@.last()->IntVector_0@,
        )),
        r is Ok && old(stack)@.last() is FloatVector ==> (final(stack)@.last()
            matches TinValue::FloatVector(out) && out@ == dedup_feq(
            crate::sorts::sorted_fbits(old(stack)@.last()->FloatVector_0@, false),
        )),
{
    let top = match stack.pop() {
        Some(v) => v,
        None => {
            return Err(TinError::EmptyStack);
        },
    };
    match top {
        TinValue::Vector(mut v) => {
            let ghost orig = v@;
            sort_values_stable(&mut v, false);
            let ghost sorted = v@;
            let mut out: Vec<TinValue> = Vec::new();
            let n = v.len();
            let mut i: usize = 0;
            while i < n
                invariant
                    0 <= i <= n,
                    n == v@.len(),
                    v@ == sorted,
                    crate::value::rep_seq(out@) == crate::value::rep_seq(
                        dedup_adj(sorted.subrange(0, i as int)),
                    ),
                decreases n - i,
            {
                proof {
                    assert(sorted.subrange(0, i + 1).drop_last() =~= sorted.subrange(
                        0,
                        i as int,
                    ));
                    assert(sorted.subrange(0, i + 1).last() == sorted[i as int]);
                    if i > 0 {
                        assert(sorted.subrange(0, i + 1)[i - 1] == sorted[i - 1]);
                    }
                }
                let take = if i == 0 {
                    true
                } else {
                    cmp_value(&v[i - 1], &v[i]) != 0
                };
                if take {
                    let ghost before = out@;
                    let e = clone_value(&v[i]);
                    proof {
                        assert(e@ == sorted[i as int]@);
                    }
                    out.push(e);
                    proof {
                        broadcast use crate::value::lemma_rep_seq;

                        let prev = dedup_adj(sorted.subrange(0, i as int));
                        let next = dedup_adj(sorted.subrange(0, i + 1));
                        assert(next == prev + seq![sorted[i as int]]);
                        assert forall|t: int|
                            0 <= t < crate::value::rep_seq(out@).len()
                            implies #[trigger] crate::value::rep_seq(out@)[t]
                            == crate::value::rep_seq(next)[t] by {
                            assert(crate::value::rep_seq(out@)[t] == crate::value::rep_of(
                                out@[t],
                            ));
                            assert(crate::value::rep_seq(next)[t] == crate::value::rep_of(
                                next[t],
                            ));
                            if t < before.len() {
                                assert(out@[t] == before[t]);
                                assert(crate::value::rep_seq(before)[t] == crate::value::rep_of(
                                    before[t],
                                ));
                                assert(crate::value::rep_seq(prev)[t] == crate::value::rep_of(
                                    prev[t],
                                ));
                            } else {
                                assert(out@[t] == e);
                                assert(next[t] == sorted[i as int]);
                            }
                        }
                        assert(crate::value::rep_seq(out@) =~= crate::value::rep_seq(next));
                    }
                }
                i += 1;
            }
            proof {
                assert(sorted.subrange(0, sorted.len() as int) =~= sorted);
            }
            stack.push(TinValue::Vector(out));
            Ok(())
        },
        TinValue::IntVector(v) => {
            let mut out: Vec<i64> = Vec::new();
            let n = v.len();
            let mut i: usize = 0;
            while i < n
                invariant
                    0 <= i <= n,
                    n == v@.len(),
                    out@ == first_occurrences(v@.subrange(0, i as int)),
                decreases n - i,
            {
                proof {
                    assert(v@.subrange(0, i + 1).drop_last() =~= v@.subrange(0, i as int));
                    assert(v@.subrange(0, i + 1).last() == v@[i as int]);
                    lemma_first_occurrences_contains(v@.subrange(0, i as int), v@[i as int]);
                }
                let mut seen = false;
                let k = out.len();
                let mut j: usize = 0;
                while j < k
                    invariant
                        0 <= j <= k,
                        k == out@.len(),
                        0 <= i < n,
                        seen == (exists|t: int| 0 <= t < j && #[trigger] out@[t] == v@[i as int]),
                    decreases k - j,
                {
                    if out[j] == v[i] {
                        seen = true;
                    }
                    j += 1;
                }
                proof {
                    assert(seen == out@.contains(v@[i as int]));
                }
                if !seen {
                    out.push(v[i]);
                }
                i += 1;
            }
            proof {
                assert(v@.subrange(0, v@.len() as int) =~= v@);
            }
            stack.push(TinValue::IntVector(out));
            Ok(())
        },
        TinValue::FloatVector(mut v) => {
            sort_fbits(&mut v, false);
            let ghost sorted = v@;
            let mut out: Vec<u64> = Vec::new();
            let n = v.len();
            let mut i: usize = 0;
            while i < n
                invariant
                    0 <= i <= n,
                    n == v@.len(),
                    v@ == sorted,
                    out@ == dedup_feq(sorted.subrange(0, i as int)),
                decreases n - i,
            {
                proof {
                    assert(sorted.subrange(0, i + 1).drop_last() =~= sorted.subrange(
                        0,
                        i as int,
                    ));
                    assert(sorted.subrange(0, i + 1).last() == sorted[i as int]);
                    if i > 0 {
                        assert(sorted.subrange(0, i + 1)[i - 1] == sorted[i - 1]);
                    }
                }
                let take = if i == 0 {
                    true
                } else {
                    !fl_eq(v[i - 1], v[i])
                };
                if take {
                    out.push(v[i]);
                    proof {
                        assert(out@ =~= dedup_feq(sorted.subrange(0, i + 1)));
                    }
                }
                i += 1;
            }
            proof {
                assert(sorted.subrange(0, sorted.len() as int) =~= sorted);
            }
            stack.push(TinValue::FloatVector(out));
            Ok(())
        },
        other => {
            stack.push(other);
            Err(TinError::NotAVector)
        },
    }
}

/// How many integers of the sequence equal `x`.
pub open spec fn icount(s: Seq<i64>, x: i64) -> int
    decreases s.len(),
{
    if s.len() == 0 {
        0
    } else {
        icount(s.drop_last(), x) + (if s.last() == x {
            1int
        } else {
            0int
        })
    }
}

/// How many float patterns of the sequence share `x`'s order key.
pub open spec fn fkcount(s: Seq<u64>, x: u64) -> int
    decreases s.len(),
{
    if s.len() == 0 {
        0
    } else {
        fkcount(s.drop_last(), x) + (if fkey(s.last()) == fkey(x) {
            1int
        } else {
            0int
        })
    }
}

/// Pops a vector and pushes, aligned with it, how often each element
/// occurs in the whole vector: numeric equality over the general
/// representation, plain equality over integers, key equality over
/// floats (whose counts come back as floats).
#[verifier::loop_isolation(false)]
pub fn op_counts(stack: &mut Vec<TinValue>) -> (r: Result<(), TinError>)
    ensures
        r is Err ==> (r->Err_0 == TinError::EmptyStack || r->Err_0 == TinError::NotAVector),
        r is Ok <==> (old(stack)@.len() > 0 && rep_is_vec(old(stack)@.last()@)),
        r is Ok ==> final(stack)@.len() == old(stack)@.len() && final(stack)@.drop_last() == old(
            stack,
        )@.drop_last(),
        r is Ok && old(stack)@.last()@ is Vector ==> final(stack)@.last()@ == RepVal::Vector(
            Seq::new(
                rep_len(old(stack)@.last()@) as nat,
                |i: int|
                    RepVal::Int(
                        count_i64(
                            rep_items(old(stack)@.last()@),
                            crate::value::abs(rep_elem(old(stack)@.last()@, i)),
                        ),
                    ),
            ),
        ),
        r is Ok && old(stack)@.last()@ is IntVector ==> final(stack)@.last()@
            == RepVal::IntVector(
            Seq::new(
                old(stack)@.last()@->IntVector_0.len(),
                |i: int|
                    icount(
                        old(stack)@.last()@->IntVector_0,
                        old(stack)@.last()@->IntVector_0[i],
                    ) as i64,
            ),
        ),
        r is Ok && old(stack)@.last()@ is FloatVector ==> final(stack)@.last()@
            == RepVal::FloatVector(
            Seq::new(
                old(stack)@.last()@->FloatVector_0.len(),
                |i: int|
                    i2f_bits(
                        fkcount(
                            old(stack)@.last()@->FloatVector_0,
                            old(stack)@.last()@->FloatVector_0[i],
                        ) as i64,
                    ),
            ),
        ),
{
    broadcast use crate::value::lemma_rep_seq;

    let top = match stack.pop() {
        Some(v) => v,
        None => {
            return Err(TinError::EmptyStack);
        },
    };
    let ghost trep = top@;
    match top {
        TinValue::Vector(v) => {
            proof {
                assert(trep == RepVal::Vector(crate::value::rep_seq(v@)));
            }
            let ghost items = rep_items(trep);
            let mut out: Vec<TinValue> = Vec::new();
            let n = v.len();
            let mut i: usize = 0;
            while i < n
                invariant
                    0 <= i <= n,
                    n == v@.len(),
                    n == items.len(),
                    out@.len() == i,
                    forall|k: int|
                        0 <= k < i ==> #[trigger] out@[k] == TinValue::Int(
                            count_i64(items, crate::value::abs(rep_elem(trep, k))),
                        ),
                decreases n - i,
            {
                let mut c: usize = 0;
                let mut j: usize = 0;
                while j < n
                    invariant
                        0 <= j <= n,
                        0 <= i < n,
                        c <= j,
                        c == count_eq(
                            items.subrange(0, j as int),
                            crate::value::abs(rep_elem(trep, i as int)),
                        ),
                    decreases n - j,
                {
                    proof {
                        assert(items.subrange(0, j + 1).drop_last() =~= items.subrange(
                            0,
                            j as int,
                        ));
                        assert(items.subrange(0, j + 1).last() == rep_elem(trep, j as int));
                        assert(v@[j as int]@ == rep_elem(trep, j as int));
                        assert(v@[i as int]@ == rep_elem(trep, i as int));
                    }
                    if eq_value(&v[j], &v[i]) {
                        c += 1;
                    }
                    j += 1;
                }
                proof {
                    assert(items.subrange(0, items.len() as int) =~= items);
                }
                out.push(TinValue::Int(#[verifier::truncate] (c as i64)));
                i += 1;
            }
            proof {
                let target = Seq::new(
                    rep_len(trep) as nat,
                    |k: int|
                        RepVal::Int(count_i64(items, crate::value::abs(rep_elem(trep, k)))),
                );
                assert forall|k: int|
                    0 <= k < crate::value::rep_seq(out@).len()
                    implies #[trigger] crate::value::rep_seq(out@)[k] == target[k] by {
                    assert(crate::value::rep_seq(out@)[k] == crate::value::rep_of(out@[k]));
                }
                assert(crate::value::rep_seq(out@) =~= target);
            }
            stack.push(TinValue::Vector(out));
            Ok(())
        },
        TinValue::IntVector(v) => {
            let mut out: Vec<i64> = Vec::new();
            let n = v.len();
            let mut i: usize = 0;
            while i < n
                invariant
                    0 <= i <= n,
                    n == v@.len(),
                    out@.len() == i,
                    forall|k: int| 0 <= k < i ==> #[trigger] out@[k] == icount(v@, v@[k]) as i64,
                decreases n - i,
            {
                let mut c: usize = 0;
                let mut j: usize = 0;
                while j < n
                    invariant
                        0 <= j <= n,
                        0 <= i < n,
                        c <= j,
                        c == icount(v@.subrange(0, j as int), v@[i as int]),
                    decreases n - j,
                {
                    proof {
                        assert(v@.subrange(0, j + 1).drop_last() =~= v@.subrange(0, j as int));
                        assert(v@.subrange(0, j + 1).last() == v@[j as int]);
                    }
                    if v[j] == v[i] {
                        c += 1;
                    }
                    j += 1;
                }
                proof {
                    assert(v@.subrange(0, v@.len() as int) =~= v@);
                }
                out.push(#[verifier::truncate] (c as i64));
                i += 1;
            }
            proof {
                assert(out@ =~= Seq::new(v@.len(), |k: int| icount(v@, v@[k]) as i64));
            }
            stack.push(TinValue::IntVector(out));
            Ok(())
        },
        TinValue::FloatVector(v) => {
            let mut out: Vec<u64> = Vec::new();
            let n = v.len();
            let mut i: usize = 0;
            while i < n
                invariant
                    0 <= i <= n,
                    n == v@.len(),
                    out@.len() == i,
                    forall|k: int|
                        0 <= k < i ==> #[trigger] out@[k] == i2f_bits(fkcount(v@, v@[k]) as i64),
                decreases n - i,
            {
                let mut c: usize = 0;
                let mut j: usize = 0;
                while j < n
                    invariant
                        0 <= j <= n,
                        0 <= i < n,
                        c <= j,
                        c == fkcount(v@.subrange(0, j as int), v@[i as int]),
                    decreases n - j,
                {
                    proof {
                        assert(v@.subrange(0, j + 1).drop_last() =~= v@.subrange(0, j as int));
                        assert(v@.subrange(0, j + 1).last() == v@[j as int]);
                    }
                    if crate::order::fl_key_cmp(v[j], v[i]) == 0 {
                        c += 1;
                    }
                    j += 1;
                }
                proof {
                    assert(v@.subrange(0, v@.len() as int) =~= v@);
                }
                out.push(fl_of_int(#[verifier::truncate] (c as i64)));
                i += 1;
            }
            proof {
                assert(out@ =~= Seq::new(v@.len(), |k: int| i2f_bits(fkcount(v@, v@[k]) as i64)));
            }
            stack.push(TinValue::FloatVector(out));
            Ok(())
        },
        other => {
            stack.push(other);
            Err(TinError::NotAVector)
        },
    }
}

/// Every scalar reachable inside a mirrored value, in order.
pub open spec fn flat_of(r: RepVal) -> Seq<RepVal>
    decreases r, 0int,
{
    match r {
        RepVal::Vector(s) => flat_seq(s),
        RepVal::IntVector(s) => crate::arith::ints_rep(s),
        RepVal::FloatVector(s) => crate::arith::floats_rep(s),
        _ => seq![r],
    }
}

/// Every scalar reachable inside a sequence of mirrors, in order.
pub open spec fn flat_seq(s: Seq<RepVal>) -> Seq<RepVal>
    decreases s, 1int,
{
    if s.len() == 0 {
        Seq::empty()
    } else {
        flat_seq(s.drop_last()) + flat_of(s.last())
    }
}

/// Appends every scalar reachable inside a value, in order.
#[verifier::loop_isolation(false)]
fn flatten_into(v: &TinValue, out: &mut Vec<TinValue>)
    ensures
        crate::value::rep_seq(final(out)@) =~= crate::value::rep_seq(old(out)@) + flat_of(v@),
    decreases *v,
{
    broadcast use crate::value::lemma_rep_seq;

    let ghost base = out@;
    match v {
        TinValue::Vector(inner) => {
            proof {
                assert(v@ == RepVal::Vector(crate::value::rep_seq(inner@)));
            }
            let ghost items = crate::value::rep_seq(inner@);
            let n = inner.len();
            let mut i: usize = 0;
            while i < n
                invariant
                    0 <= i <= n,
                    n == inner@.len(),
                    n == items.len(),
                    crate::value::rep_seq(out@) =~= crate::value::rep_seq(base) + flat_seq(
                        items.subrange(0, i as int),
                    ),
                decreases n - i,
            {
                proof {
                    assert(items.subrange(0, i + 1).drop_last() =~= items.subrange(0, i as int));
                    assert(items.subrange(0, i + 1).last() == items[i as int]);
                    assert(inner@[i as int]@ == items[i as int]);
                }
                flatten_into(&inner[i], out);
                i += 1;
            }
            proof {
                assert(items.subrange(0, items.len() as int) =~= items);
            }
        },
        TinValue::IntVector(inner) => {
            let n = inner.len();
            let mut i: usize = 0;
            while i < n
                invariant
                    0 <= i <= n,
                    n == inner@.len(),
                    out@.len() == base.len() + i,
                    out@.subrange(0, base.len() as int) == base,
                    forall|j: int|
                        0 <= j < i ==> out@[base.len() + j] == TinValue::Int(
                            #[trigger] inner@[j],
                        ),
                decreases n - i,
            {
                out.push(TinValue::Int(inner[i]));
                proof {
                    assert(out@.subrange(0, base.len() as int) =~= base);
                }
                i += 1;
            }
            proof {
                assert forall|j: int|
                    0 <= j < crate::value::rep_seq(out@).len()
                    implies #[trigger] crate::value::rep_seq(out@)[j] == (crate::value::rep_seq(
                    base,
                ) + flat_of(v@))[j] by {
                    assert(crate::value::rep_seq(out@)[j] == crate::value::rep_of(out@[j]));
                    if j < base.len() {
                        assert(out@[j] == base[j]);
                        assert(crate::value::rep_seq(base)[j] == crate::value::rep_of(base[j]));
                    }
                }
            }
        },
        TinValue::FloatVector(inner) => {
            let n = inner.len();
            let mut i: usize = 0;
            while i < n
                invariant
                    0 <= i <= n,
                    n == inner@.len(),
                    out@.len() == base.len() + i,
                    out@.subrange(0, base.len() as int) == base,
                    forall|j: int|
                        0 <= j < i ==> out@[base.len() + j] == TinValue::Float(
                            #[trigger] inner@[j],
                        ),
                decreases n - i,
            {
                out.push(TinValue::Float(inner[i]));
                proof {
                    assert(out@.subrange(0, base.len() as int) =~= base);
                }
                i += 1;
            }
            proof {
                assert forall|j: int|
                    0 <= j < crate::value::rep_seq(out@).len()
                    implies #[trigger] crate::value::rep_seq(out@)[j] == (crate::value::rep_seq(
                    base,
                ) + flat_of(v@))[j] by {
                    assert(crate::value::rep_seq(out@)[j] == crate::value::rep_of(out@[j]));
                    if j < base.len() {
                        assert(out@[j] == base[j]);
                        assert(crate::value::rep_seq(base)[j] == crate::value::rep_of(base[j]));
                    }
                }
            }
        },
        other => {
            let e = clone_value(other);
            proof {
                assert(e@ == other@);
            }
            out.push(e);
            proof {
                assert(crate::value::rep_seq(out@) =~= crate::value::rep_seq(base) + flat_of(
                    v@,
                ));
            }
        },
    }
}

/// Pops a vector and pushes its deep flattening: a general vector is
/// flattened to the scalars inside it, in order; a homogeneous vector is
/// already flat and comes back unchanged.
pub fn op_flatten(stack: &mut Vec<TinValue>) -> (r: Result<(), TinError>)
    ensures
        r is Err ==> (r->Err_0 == TinError::EmptyStack || r->Err_0 == TinError::NotAVector),
        r is Ok <==> (old(stack)@.len() > 0 && rep_is_vec(old(stack)@.last()@)),
        r is Ok ==> final(stack)@.len() == old(stack)@.len() && final(stack)@.drop_last() == old(
            stack,
        )@.drop_last(),
        r is Ok && old(stack)@.last()@ is Vector ==> final(stack)@.last()@ == RepVal::Vector(
            flat_seq(old(stack)@.last()@->Vector_0),
        ),
        r is Ok && old(stack)@.last()@ is IntVector ==> final(stack)@.last()@ == old(
            stack,
        )@.last()@,
        r is Ok && old(stack)@.last()@ is FloatVector ==> final(stack)@.last()@ == old(
            stack,
        )@.last()@,
{
    broadcast use crate::value::lemma_rep_seq;

    let top = match stack.pop() {
        Some(v) => v,
        None => {
            return Err(TinError::EmptyStack);
        },
    };
    let ghost trep = top@;
    match top {
        TinValue::Vector(v) => {
            let mut out: Vec<TinValue> = Vec::new();
            let whole = TinValue::Vector(v);
            proof {
                assert(whole@ == trep);
                assert(crate::value::rep_seq(Seq::<TinValue>::empty())
                    =~= Seq::<RepVal>::empty());
            }
            flatten_into(&whole, &mut out);
            proof {
                assert(crate::value::rep_seq(out@) =~= flat_of(trep));
            }
            stack.push(TinValue::Vector(out));
            Ok(())
        },
        TinValue::IntVector(v) => {
            stack.push(TinValue::IntVector(v));
            Ok(())
        },
        TinValue::FloatVector(v) => {
            stack.push(TinValue::FloatVector(v));
            Ok(())
        },
        other => {
            stack.push(other);
            Err(TinError::NotAVector)
        },
    }
}

} // verus!
