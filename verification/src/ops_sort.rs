//! Extremum, sorting, uniqueness, frequency and flattening opcodes.
use vstd::prelude::*;

use crate::apply::apply_bin;
use crate::arith::bin_rep;
use crate::arith::BinOp;
use crate::errors::TinError;
use crate::fbits::fl_of_int;
use crate::ops_stack::rep_is_vec;
use crate::order::fl_key_cmp;
use crate::parallelism::par_max;
use crate::parallelism::par_min;
use crate::parallelism::ParallelPolicy;
use crate::sorts::sort_fbits;
use crate::sorts::sort_ints;
use crate::sorts::pairs_safe;
use crate::sorts::sort_pairs_stable;
use crate::sorts::sort_safe;
use crate::sorts::sort_values_stable;
use crate::sorts::sorted_fbits;
use crate::sorts::sorted_i64;
use crate::sorts::stable_sorted;
use crate::sorts::stable_sorted_pairs;
use crate::value::fkey;
use crate::value::i2f_bits;
use crate::value::lemma_rep_seq;
use crate::value::rep_seq;
use crate::value::RepVal;
use crate::value::cmp_abs;
use crate::value::TinValue;
use crate::vector::clone_value;
use crate::vector::rep_elem;
use crate::vector::rep_len;

verus! {

broadcast use vstd::std_specs::vec::group_vec_axioms;

/// The running maximum of the sequential scan: the first element, then
/// each later element replaces the candidate exactly when the broadcast
/// greater-than test returns the integer one.
pub open spec fn max_scan(s: Seq<RepVal>) -> RepVal
    decreases s.len(),
{
    if s.len() <= 1 {
        s[0]
    } else if bin_rep(BinOp::Gt, s.last(), max_scan(s.drop_last())) == RepVal::Int(1) {
        s.last()
    } else {
        max_scan(s.drop_last())
    }
}

/// The running minimum of the sequential scan.
pub open spec fn min_scan(s: Seq<RepVal>) -> RepVal
    decreases s.len(),
{
    if s.len() <= 1 {
        s[0]
    } else if bin_rep(BinOp::Lt, s.last(), min_scan(s.drop_last())) == RepVal::Int(1) {
        s.last()
    } else {
        min_scan(s.drop_last())
    }
}

/// The largest integer of a nonempty sequence.
pub open spec fn imax(s: Seq<i64>) -> i64
    decreases s.len(),
{
    if s.len() <= 1 {
        s[0]
    } else if s.last() > imax(s.drop_last()) {
        s.last()
    } else {
        imax(s.drop_last())
    }
}

/// The smallest integer of a nonempty sequence.
pub open spec fn imin(s: Seq<i64>) -> i64
    decreases s.len(),
{
    if s.len() <= 1 {
        s[0]
    } else if s.last() < imin(s.drop_last()) {
        s.last()
    } else {
        imin(s.drop_last())
    }
}

/// The key-largest float pattern of a nonempty sequence.
pub open spec fn fmax(s: Seq<u64>) -> u64
    decreases s.len(),
{
    if s.len() <= 1 {
        s[0]
    } else if fkey(s.last()) > fkey(fmax(s.drop_last())) {
        s.last()
    } else {
        fmax(s.drop_last())
    }
}

/// The key-smallest float pattern of a nonempty sequence.
pub open spec fn fmin(s: Seq<u64>) -> u64
    decreases s.len(),
{
    if s.len() <= 1 {
        s[0]
    } else if fkey(s.last()) < fkey(fmin(s.drop_last())) {
        s.last()
    } else {
        fmin(s.drop_last())
    }
}

/// Content of a mirrored vector on which the value comparison is a
/// total preorder (the element form of `sort_safe`).
pub open spec fn elems_safe(t: RepVal) -> bool {
    (forall|i: int|
        0 <= i < rep_len(t) ==> crate::value::int_only(
            crate::value::abs(#[trigger] rep_elem(t, i)),
        )) || (forall|i: int|
        0 <= i < rep_len(t) ==> crate::value::num_small(
            crate::value::abs(#[trigger] rep_elem(t, i)),
        ))
}

/// Pops a nonempty vector and pushes its maximum (or minimum): the scan
/// result on the sequential path; on the parallel path some element of
/// the vector, and wherever the comparison is a total preorder on the
/// content, one that no element exceeds (with `lemma_extrema_agree`,
/// callers obtain that any two such extrema are numerically equal, so
/// the two paths agree as values there).
#[verifier::loop_isolation(false)]
pub fn op_extremum(stack: &mut Vec<TinValue>, policy: &ParallelPolicy, want_max: bool) -> (r:
    Result<(), TinError>)
    ensures
        r is Err ==> (r->Err_0 == TinError::EmptyStack || r->Err_0 == TinError::NotAVector
            || r->Err_0 == TinError::EmptyVector),
        r is Ok <==> (old(stack)@.len() > 0 && rep_is_vec(old(stack)@.last()@) && rep_len(
            old(stack)@.last()@,
        ) > 0),
        r is Ok ==> final(stack)@.len() == old(stack)@.len() && final(stack)@.drop_last() == old(
            stack,
        )@.drop_last(),
        r is Ok && old(stack)@.last()@ is IntVector ==> final(stack)@.last() == TinValue::Int(
            if want_max {
                imax(old(stack)@.last()@->IntVector_0)
            } else {
                imin(old(stack)@.last()@->IntVector_0)
            },
        ),
        r is Ok && old(stack)@.last()@ is FloatVector ==> final(stack)@.last() == TinValue::Float(
            if want_max {
                fmax(old(stack)@.last()@->FloatVector_0)
            } else {
                fmin(old(stack)@.last()@->FloatVector_0)
            },
        ),
        r is Ok && old(stack)@.last()@ is Vector && !(policy.enabled && policy.cores > 2
            && rep_len(old(stack)@.last()@) >= crate::parallelism::PARALLEL_THRESHOLD) ==> final(
            stack
        )@.last()@ == (if want_max {
            max_scan(old(stack)@.last()@->Vector_0)
        } else {
            min_scan(old(stack)@.last()@->Vector_0)
        }),
        r is Ok && old(stack)@.last()@ is Vector && policy.enabled && policy.cores > 2 && rep_len(
            old(stack)@.last()@,
        ) >= crate::parallelism::PARALLEL_THRESHOLD ==> exists|i: int|
            0 <= i < rep_len(old(stack)@.last()@) && final(stack)@.last()@ == rep_elem(
                old(stack)@.last()@,
                i,
            ),
        r is Ok && old(stack)@.last()@ is Vector && policy.enabled && policy.cores > 2 && rep_len(
            old(stack)@.last()@,
        ) >= crate::parallelism::PARALLEL_THRESHOLD && elems_safe(old(stack)@.last()@) ==> forall|
            i: int,
        |
            0 <= i < rep_len(old(stack)@.last()@) ==> (if want_max {
                cmp_abs(
                    final(stack)@.last().am(),
                    crate::value::abs(#[trigger] rep_elem(old(stack)@.last()@, i)),
                ) >= 0
            } else {
                cmp_abs(
                    final(stack)@.last().am(),
                    crate::value::abs(#[trigger] rep_elem(old(stack)@.last()@, i)),
                ) <= 0
            }),
{
    broadcast use lemma_rep_seq;

    let top = match stack.pop() {
        Some(v) => v,
        None => {
            return Err(TinError::EmptyStack);
        },
    };
    let ghost trep = top@;
    match top {
        TinValue::Vector(v) => {
            proof {
                assert(trep == RepVal::Vector(rep_seq(v@)));
            }
            if v.len() == 0 {
                stack.push(TinValue::Vector(v));
                return Err(TinError::EmptyVector);
            }
            if policy.parallelizable(v.len()) {
                proof {
                    if elems_safe(trep) {
                        assert(crate::sorts::sort_safe(v@)) by {
                            if forall|i: int|
                                0 <= i < rep_len(trep) ==> crate::value::int_only(
                                    crate::value::abs(#[trigger] rep_elem(trep, i)),
                                ) {
                                assert forall|i: int|
                                    0 <= i < v@.len() implies crate::value::int_only(
                                    #[trigger] v@[i].am(),
                                ) by {
                                    assert(rep_elem(trep, i) == v@[i]@);
                                }
                            } else {
                                assert forall|i: int|
                                    0 <= i < v@.len() implies crate::value::num_small(
                                    #[trigger] v@[i].am(),
                                ) by {
                                    assert(rep_elem(trep, i) == v@[i]@);
                                }
                            }
                        }
                    }
                }
                let best = if want_max {
                    par_max(&v)
                } else {
                    par_min(&v)
                };
                proof {
                    let i = choose|i: int| 0 <= i < v@.len() && #[trigger] v@[i]@ == best@;
                    assert(rep_elem(trep, i) == v@[i]@);
                    if elems_safe(trep) {
                        assert forall|j: int|
                            0 <= j < rep_len(trep) implies (if want_max {
                            cmp_abs(
                                best.am(),
                                crate::value::abs(#[trigger] rep_elem(trep, j)),
                            ) >= 0
                        } else {
                            cmp_abs(
                                best.am(),
                                crate::value::abs(#[trigger] rep_elem(trep, j)),
                            ) <= 0
                        }) by {
                            assert(rep_elem(trep, j) == v@[j]@);
                            assert(crate::value::abs(rep_elem(trep, j)) == v@[j].am());
                        }
                    }
                }
                stack.push(best);
                Ok(())
            } else {
                let ghost rs = rep_seq(v@);
                let mut best = clone_value(&v[0]);
                let n = v.len();
                let mut i: usize = 1;
                proof {
                    assert(rs.subrange(0, 1).len() == 1);
                    assert(rs.subrange(0, 1)[0] == rs[0]);
                }
                while i < n
                    invariant
                        1 <= i <= n,
                        n == rs.len(),
                        best@ == (if want_max {
                            max_scan(rs.subrange(0, i as int))
                        } else {
                            min_scan(rs.subrange(0, i as int))
                        }),
                    decreases n - i,
                {
                    proof {
                        assert(rs.subrange(0, i + 1).drop_last() =~= rs.subrange(0, i as int));
                        assert(rs.subrange(0, i + 1).last() == rs[i as int]);
                        assert(s_at(v@, i as int) == rs[i as int]);
                    }
                    let probe = if want_max {
                        apply_bin(BinOp::Gt, &v[i], &best)
                    } else {
                        apply_bin(BinOp::Lt, &v[i], &best)
                    };
                    let replace = match probe {
                        Ok(TinValue::Int(1)) => true,
                        Ok(_) => false,
                        Err(_) => false,
                    };
                    proof {
                        crate::arith::lemma_bin_ok_total(
                            if want_max {
                                BinOp::Gt
                            } else {
                                BinOp::Lt
                            },
                            rs[i as int],
                            best@,
                        );
                    }
                    if replace {
                        best = clone_value(&v[i]);
                    }
                    i += 1;
                }
                proof {
                    assert(rs.subrange(0, rs.len() as int) =~= rs);
                }
                stack.push(best);
                Ok(())
            }
        },
        TinValue::IntVector(v) => {
            if v.len() == 0 {
                stack.push(TinValue::IntVector(v));
                return Err(TinError::EmptyVector);
            }
            let mut best = v[0];
            let n = v.len();
            let mut i: usize = 1;
            proof {
                assert(v@.subrange(0, 1).len() == 1);
                assert(v@.subrange(0, 1)[0] == v@[0]);
            }
            while i < n
                invariant
                    1 <= i <= n,
                    n == v@.len(),
                    best == (if want_max {
                        imax(v@.subrange(0, i as int))
                    } else {
                        imin(v@.subrange(0, i as int))
                    }),
                decreases n - i,
            {
                proof {
                    assert(v@.subrange(0, i + 1).drop_last() =~= v@.subrange(0, i as int));
                    assert(v@.subrange(0, i + 1).last() == v@[i as int]);
                }
                if (want_max && v[i] > best) || (!want_max && v[i] < best) {
                    best = v[i];
                }
                i += 1;
            }
            proof {
                assert(v@.subrange(0, v@.len() as int) =~= v@);
            }
            stack.push(TinValue::Int(best));
            Ok(())
        },
        TinValue::FloatVector(v) => {
            if v.len() == 0 {
                stack.push(TinValue::FloatVector(v));
                return Err(TinError::EmptyVector);
            }
            let mut best = v[0];
            let n = v.len();
            let mut i: usize = 1;
            proof {
                assert(v@.subrange(0, 1).len() == 1);
                assert(v@.subrange(0, 1)[0] == v@[0]);
            }
            while i < n
                invariant
                    1 <= i <= n,
                    n == v@.len(),
                    best == (if want_max {
                        fmax(v@.subrange(0, i as int))
                    } else {
                        fmin(v@.subrange(0, i as int))
                    }),
                decreases n - i,
            {
                proof {
                    assert(v@.subrange(0, i + 1).drop_last() =~= v@.subrange(0, i as int));
                    assert(v@.subrange(0, i + 1).last() == v@[i as int]);
                }
                let c = fl_key_cmp(v[i], best);
                if (want_max && c > 0) || (!want_max && c < 0) {
                    best = v[i];
                }
                i += 1;
            }
            proof {
                assert(v@.subrange(0, v@.len() as int) =~= v@);
            }
            stack.push(TinValue::Float(best));
            Ok(())
        },
        other => {
            stack.push(other);
            Err(TinError::NotAVector)
        },
    }
}

/// The mirror of one element of a sequence of values.
pub open spec fn s_at(v: Seq<TinValue>, i: int) -> RepVal {
    v[i]@
}

/// Sorts the vector on top of the stack in place, ascending or
/// descending. The general representation goes through the stable
/// data-parallel merge sort: the values always come back as a
/// permutation, and wherever the comparison is a total preorder
/// (`sort_safe`) the result is pinned to the stable rearrangement.
pub fn op_sort(stack: &mut Vec<TinValue>, desc: bool) -> (r: Result<(), TinError>)
    ensures
        r is Err ==> (r->Err_0 == TinError::EmptyStack || r->Err_0 == TinError::NotAVector),
        r is Ok <==> (old(stack)@.len() > 0 && rep_is_vec(old(stack)@.last()@)),
        r is Ok ==> final(stack)@.len() == old(stack)@.len() && final(stack)@.drop_last() == old(
            stack,
        )@.drop_last(),
        r is Ok && old(stack)@.last() is Vector ==> (final(stack)@.last()
            matches TinValue::Vector(out) && out@.to_multiset() == old(
            stack,
        )@.last()->Vector_0@.to_multiset()),
        r is Ok && old(stack)@.last() is Vector && sort_safe(old(stack)@.last()->Vector_0@) ==> (
        final(stack)@.last() matches TinValue::Vector(out) && out@ == stable_sorted(
            old(stack)@.last()->Vector_0@,
            desc,
        )),
        r is Ok && old(stack)@.last() is IntVector ==> (final(stack)@.last()
            matches TinValue::IntVector(out) && out@ == sorted_i64(
            old(stack)@.last()->IntVector_0@,
            desc,
        )),
        r is Ok && old(stack)@.last() is FloatVector ==> (final(stack)@.last()
            matches TinValue::FloatVector(out) && out@ == sorted_fbits(
            old(stack)@.last()->FloatVector_0@,
            desc,
        )),
{
    let top = match stack.pop() {
        Some(v) => v,
        None => {
            return Err(TinError::EmptyStack);
        },
    };
    match top {
        TinValue::Vector(mut v) => {
            sort_values_stable(&mut v, desc);
            stack.push(TinValue::Vector(v));
            Ok(())
        },
        TinValue::IntVector(mut v) => {
            sort_ints(&mut v, desc);
            stack.push(TinValue::IntVector(v));
            Ok(())
        },
        TinValue::FloatVector(mut v) => {
            sort_fbits(&mut v, desc);
            stack.push(TinValue::FloatVector(v));
            Ok(())
        },
        other => {
            stack.push(other);
            Err(TinError::NotAVector)
        },
    }
}

/// The indexed pairs of a sequence of values.
pub open spec fn pairs_of(v: Seq<TinValue>) -> Seq<(i64, TinValue)> {
    Seq::new(v.len(), |i: int| (i as i64, v[i]))
}

/// The index permutation that sorts the vector on top, replacing it:
/// over a general vector the indices come back generally boxed, over an
/// integer vector as integers, over a float vector as floats.
#[verifier::loop_isolation(false)]
pub fn op_sort_idx(stack: &mut Vec<TinValue>, desc: bool) -> (r: Result<(), TinError>)
    ensures
        r is Err ==> (r->Err_0 == TinError::EmptyStack || r->Err_0 == TinError::NotAVector),
        r is Ok <==> (old(stack)@.len() > 0 && rep_is_vec(old(stack)@.last()@)),
        r is Ok ==> final(stack)@.len() == old(stack)@.len() && final(stack)@.drop_last() == old(
            stack,
        )@.drop_last(),
        r is Ok && old(stack)@.last() is Vector && sort_safe(old(stack)@.last()->Vector_0@)
            ==> final(stack)@.last()@ == RepVal::Vector(
            Seq::new(
                old(stack)@.last()->Vector_0@.len(),
                |k: int|
                    RepVal::Int(
                        stable_sorted_pairs(pairs_of(old(stack)@.last()->Vector_0@), desc)[k].0,
                    ),
            ),
        ),
        r is Ok && old(stack)@.last() is Vector ==> (final(stack)@.last()
            matches TinValue::Vector(out) && out@.len() == old(
            stack,
        )@.last()->Vector_0@.len()),
        r is Ok && old(stack)@.last() is IntVector ==> final(stack)@.last()@
            == RepVal::IntVector(
            Seq::new(
                old(stack)@.last()->IntVector_0@.len(),
                |k: int|
                    stable_sorted_pairs(
                        int_pairs(old(stack)@.last()->IntVector_0@),
                        desc,
                    )[k].0,
            ),
        ),
        r is Ok && old(stack)@.last() is FloatVector ==> final(stack)@.last()@
            == RepVal::FloatVector(
            Seq::new(
                old(stack)@.last()->FloatVector_0@.len(),
                |k: int|
                    i2f_bits(
                        stable_sorted_pairs(
                            float_pairs(old(stack)@.last()->FloatVector_0@),
                            desc,
                        )[k].0,
                    ),
            ),
        ),
{
    broadcast use lemma_rep_seq;

    let top = match stack.pop() {
        Some(v) => v,
        None => {
            return Err(TinError::EmptyStack);
        },
    };
    match top {
        TinValue::Vector(v) => {
            let mut pairs: Vec<(i64, TinValue)> = Vec::new();
            let n = v.len();
            let mut i: usize = 0;
            while i < n
                invariant
                    0 <= i <= n,
                    n == v@.len(),
                    pairs@.len() == i,
                    forall|j: int|
                        0 <= j < i ==> (#[trigger] pairs@[j]).0 == j as i64 && pairs@[j].1@
                            == v@[j]@,
                decreases n - i,
            {
                pairs.push((#[verifier::truncate] (i as i64), clone_value(&v[i])));
                i += 1;
            }
            let ghost built = pairs@;
            proof {
                lemma_pairs_sort_same(built, pairs_of(v@), desc);
                if sort_safe(v@) {
                    assert(pairs_safe(built)) by {
                        if forall|j: int|
                            0 <= j < v@.len() ==> crate::value::int_only(
                                #[trigger] v@[j].am(),
                            ) {
                            assert forall|j: int|
                                0 <= j < built.len() implies crate::value::int_only(
                                #[trigger] built[j].1.am(),
                            ) by {
                                assert(built[j].1@ == v@[j]@);
                                assert(built[j].1.am() == v@[j].am());
                                assert(crate::value::int_only(v@[j].am()));
                            }
                        } else {
                            assert forall|j: int|
                                0 <= j < built.len() implies crate::value::num_small(
                                #[trigger] built[j].1.am(),
                            ) by {
                                assert(built[j].1@ == v@[j]@);
                                assert(built[j].1.am() == v@[j].am());
                                assert(crate::value::num_small(v@[j].am()));
                            }
                        }
                    }
                }
            }
            sort_pairs_stable(&mut pairs, desc);
            proof {
                built.to_multiset_ensures();
                pairs@.to_multiset_ensures();
            }
            let mut out: Vec<TinValue> = Vec::new();
            let k = pairs.len();
            let ghost sorted = stable_sorted_pairs(pairs_of(v@), desc);
            let mut i: usize = 0;
            while i < k
                invariant
                    0 <= i <= k,
                    k == pairs@.len(),
                    out@.len() == i,
                    forall|j: int| 0 <= j < i ==> #[trigger] out@[j] == TinValue::Int(pairs@[j].0),
                decreases k - i,
            {
                out.push(TinValue::Int(pairs[i].0));
                i += 1;
            }
            proof {
                if sort_safe(v@) {
                    assert(pairs@ == stable_sorted_pairs(built, desc));
                    assert(rep_seq(out@) =~= Seq::new(
                        v@.len(),
                        |t: int| RepVal::Int(sorted[t].0),
                    ));
                }
            }
            stack.push(TinValue::Vector(out));
            Ok(())
        },
        TinValue::IntVector(v) => {
            let mut pairs: Vec<(i64, TinValue)> = Vec::new();
            let n = v.len();
            let mut i: usize = 0;
            while i < n
                invariant
                    0 <= i <= n,
                    n == v@.len(),
                    pairs@.len() == i,
                    forall|j: int|
                        0 <= j < i ==> (#[trigger] pairs@[j]).0 == j as i64 && pairs@[j].1
                            == TinValue::Int(v@[j]),
                decreases n - i,
            {
                pairs.push((#[verifier::truncate] (i as i64), TinValue::Int(v[i])));
                i += 1;
            }
            proof {
                assert(pairs@ =~= int_pairs(v@));
                lemma_sorted_pairs_len(int_pairs(v@), desc);
                assert(pairs_safe(pairs@)) by {
                    assert(forall|j: int|
                        0 <= j < pairs@.len() ==> crate::value::int_only(
                            #[trigger] pairs@[j].1.am(),
                        ));
                }
            }
            sort_pairs_stable(&mut pairs, desc);
            let mut out: Vec<i64> = Vec::new();
            let k = pairs.len();
            let ghost sorted = stable_sorted_pairs(int_pairs(v@), desc);
            let mut i: usize = 0;
            while i < k
                invariant
                    0 <= i <= k,
                    k == pairs@.len(),
                    pairs@ == sorted,
                    out@.len() == i,
                    forall|j: int| 0 <= j < i ==> #[trigger] out@[j] == sorted[j].0,
                decreases k - i,
            {
                out.push(pairs[i].0);
                i += 1;
            }
            proof {
                assert(out@ =~= Seq::new(v@.len(), |t: int| sorted[t].0));
            }
            stack.push(TinValue::IntVector(out));
            Ok(())
        },
        TinValue::FloatVector(v) => {
            let mut pairs: Vec<(i64, TinValue)> = Vec::new();
            let n = v.len();
            let mut i: usize = 0;
            while i < n
                invariant
                    0 <= i <= n,
                    n == v@.len(),
                    pairs@.len() == i,
                    forall|j: int|
                        0 <= j < i ==> (#[trigger] pairs@[j]).0 == j as i64 && pairs@[j].1
                            == TinValue::Float(v@[j]),
                decreases n - i,
            {
                pairs.push((#[verifier::truncate] (i as i64), TinValue::Float(v[i])));
                i += 1;
            }
            proof {
                assert(pairs@ =~= float_pairs(v@));
                lemma_sorted_pairs_len(float_pairs(v@), desc);
                assert(pairs_safe(pairs@)) by {
                    assert(forall|j: int|
                        0 <= j < pairs@.len() ==> crate::value::num_small(
                            #[trigger] pairs@[j].1.am(),
                        ));
                }
            }
            sort_pairs_stable(&mut pairs, desc);
            let mut out: Vec<u64> = Vec::new();
            let k = pairs.len();
            let ghost sorted = stable_sorted_pairs(float_pairs(v@), desc);
            let mut i: usize = 0;
            while i < k
                invariant
                    0 <= i <= k,
                    k == pairs@.len(),
                    pairs@ == sorted,
                    out@.len() == i,
                    forall|j: int| 0 <= j < i ==> #[trigger] out@[j] == i2f_bits(sorted[j].0),
                decreases k - i,
            {
                out.push(fl_of_int(pairs[i].0));
                i += 1;
            }
            proof {
                assert(out@ =~= Seq::new(v@.len(), |t: int| i2f_bits(sorted[t].0)));
            }
            stack.push(TinValue::FloatVector(out));
            Ok(())
        },
        other => {
            stack.push(other);
            Err(TinError::NotAVector)
        },
    }
}

/// The indexed pairs of an integer vector, boxed.
pub open spec fn int_pairs(v: Seq<i64>) -> Seq<(i64, TinValue)> {
    Seq::new(v.len(), |i: int| (i as i64, TinValue::Int(v[i])))
}

/// The indexed pairs of a float vector, boxed.
pub open spec fn float_pairs(v: Seq<u64>) -> Seq<(i64, TinValue)> {
    Seq::new(v.len(), |i: int| (i as i64, TinValue::Float(v[i])))
}

/// Two pair lists with equal indices and mirror-equal values sort to
/// index-equal lists.
proof fn lemma_pairs_sort_same(a: Seq<(i64, TinValue)>, b: Seq<(i64, TinValue)>, desc: bool)
    requires
        a.len() == b.len(),
        forall|j: int|
            0 <= j < a.len() ==> (#[trigger] a[j]).0 == b[j].0 && a[j].1@ == b[j].1@,
    ensures
        stable_sorted_pairs(a, desc).len() == a.len(),
        stable_sorted_pairs(b, desc).len() == b.len(),
        forall|j: int|
            0 <= j < a.len() ==> (#[trigger] stable_sorted_pairs(a, desc)[j]).0
                == stable_sorted_pairs(b, desc)[j].0 && stable_sorted_pairs(a, desc)[j].1@
                == stable_sorted_pairs(b, desc)[j].1@,
    decreases a.len(),
{
    lemma_sorted_pairs_len(a, desc);
    lemma_sorted_pairs_len(b, desc);
    if a.len() > 0 {
        assert forall|j: int|
            0 <= j < a.len() - 1 implies (#[trigger] a.drop_last()[j]).0 == b.drop_last()[j].0
            && a.drop_last()[j].1@ == b.drop_last()[j].1@ by {
            assert(a.drop_last()[j] == a[j]);
        }
        lemma_pairs_sort_same(a.drop_last(), b.drop_last(), desc);
        lemma_place_pair_same(
            a.last(),
            b.last(),
            stable_sorted_pairs(a.drop_last(), desc),
            stable_sorted_pairs(b.drop_last(), desc),
            desc,
        );
    }
}

/// A stable pair sort keeps the length.
proof fn lemma_sorted_pairs_len(a: Seq<(i64, TinValue)>, desc: bool)
    ensures
        stable_sorted_pairs(a, desc).len() == a.len(),
    decreases a.len(),
{
    if a.len() > 0 {
        lemma_sorted_pairs_len(a.drop_last(), desc);
        lemma_place_pair_len(a.last(), stable_sorted_pairs(a.drop_last(), desc), desc);
    }
}

/// Placing one pair grows the list by one.
proof fn lemma_place_pair_len(x: (i64, TinValue), t: Seq<(i64, TinValue)>, desc: bool)
    ensures
        crate::sorts::place_pair(x, t, desc).len() == t.len() + 1,
    decreases t.len(),
{
    if t.len() > 0 && crate::sorts::keeps_order(t.first().1, x.1, desc) {
        lemma_place_pair_len(x, t.drop_first(), desc);
    }
}

/// Placement only reads mirrors, so mirror-equal lists place alike.
proof fn lemma_place_pair_same(
    x: (i64, TinValue),
    y: (i64, TinValue),
    t: Seq<(i64, TinValue)>,
    u: Seq<(i64, TinValue)>,
    desc: bool,
)
    requires
        x.0 == y.0,
        x.1@ == y.1@,
        t.len() == u.len(),
        forall|j: int| 0 <= j < t.len() ==> (#[trigger] t[j]).0 == u[j].0 && t[j].1@ == u[j].1@,
    ensures
        crate::sorts::place_pair(x, t, desc).len() == crate::sorts::place_pair(y, u, desc).len(),
        forall|j: int|
            0 <= j < crate::sorts::place_pair(x, t, desc).len() ==> (
            #[trigger] crate::sorts::place_pair(x, t, desc)[j]).0 == crate::sorts::place_pair(
                y,
                u,
                desc,
            )[j].0 && crate::sorts::place_pair(x, t, desc)[j].1@ == crate::sorts::place_pair(
                y,
                u,
                desc,
            )[j].1@,
    decreases t.len(),
{
    lemma_place_pair_len(x, t, desc);
    lemma_place_pair_len(y, u, desc);
    if t.len() > 0 {
        assert(crate::sorts::keeps_order(t.first().1, x.1, desc) == crate::sorts::keeps_order(
            u.first().1,
            y.1,
            desc,
        ));
        if crate::sorts::keeps_order(t.first().1, x.1, desc) {
            assert forall|j: int|
                0 <= j < t.len() - 1 implies (#[trigger] t.drop_first()[j]).0
                == u.drop_first()[j].0 && t.drop_first()[j].1@ == u.drop_first()[j].1@ by {
                assert(t.drop_first()[j] == t[j + 1]);
            }
            lemma_place_pair_same(x, y, t.drop_first(), u.drop_first(), desc);
        }
    }
}

} // verus!
