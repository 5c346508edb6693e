//! Search and aggregate opcodes: reductions, membership counts, index
//! search, unique, frequency counts, sorting and the printers. Bulk
//! operations over the general representation choose between the
//! sequential pass and the data-parallel one by the policy gate; the
//! homogeneous representations run the SIMD kernels or the direct scans.
use vstd::prelude::*;

use crate::apply::apply_bin;
use crate::arith::bin_ok;
use crate::arith::bin_rep;
use crate::arith::BinOp;
use crate::display::disp;
use crate::display::disp_value;
use crate::display::mapped;
use crate::display::mapped_value;
use crate::errors::TinError;
use crate::ops_stack::rep_is_vec;
use crate::ops_stack::rep_items;
use crate::parallelism::all_ints;
use crate::parallelism::ints_of;
use crate::parallelism::par_all;
use crate::parallelism::par_any;
use crate::parallelism::par_prod;
use crate::parallelism::par_sum;
use crate::parallelism::ParallelPolicy;
use crate::simd::prod_i64;
use crate::simd::simd_prod_f64;
use crate::simd::simd_sum_f64;
use crate::simd::sum_f64;
use crate::simd::sum_i64;
use crate::simd::wrap_prod;
use crate::simd::wrap_sum;
use crate::value::eq_abs;
use crate::value::eq_value;
use crate::value::lemma_rep_seq;
use crate::value::rep_seq;
use crate::value::truthy_abs;
use crate::value::AbsVal;
use crate::value::RepVal;
use crate::value::TinValue;
use crate::vector::rep_elem;
use crate::vector::rep_len;

verus! {

broadcast use vstd::std_specs::vec::group_vec_axioms;

/// The left fold of a binary rule over mirrored elements from an
/// initial scalar (how the sequential reduction accumulates).
pub open spec fn fold_rep(op: BinOp, init: RepVal, s: Seq<RepVal>) -> RepVal
    decreases s.len(),
{
    if s.len() == 0 {
        init
    } else {
        bin_rep(op, fold_rep(op, init, s.drop_last()), s.last())
    }
}

/// Whether the left fold stays defined throughout.
pub open spec fn fold_ok(op: BinOp, init: RepVal, s: Seq<RepVal>) -> bool
    decreases s.len(),
{
    if s.len() == 0 {
        true
    } else {
        fold_ok(op, init, s.drop_last()) && bin_ok(op, fold_rep(op, init, s.drop_last()), s.last())
    }
}

/// The sequential reduction of a general vector by one operation.
#[verifier::loop_isolation(false)]
fn fold_values(op: BinOp, init: TinValue, s: &Vec<TinValue>) -> (r: Result<TinValue, TinError>)
    ensures
        r is Ok <==> fold_ok(op, init@, rep_seq(s@)),
        r is Ok ==> r->Ok_0@ == fold_rep(op, init@, rep_seq(s@)),
        r is Err ==> (r->Err_0 == TinError::DivisionByZero || r->Err_0 == TinError::Overflow),
{
    broadcast use lemma_rep_seq;

    let ghost rs = rep_seq(s@);
    let mut acc = init;
    let n = s.len();
    let mut i: usize = 0;
    while i < n
        invariant
            0 <= i <= n,
            n == rs.len(),
            acc@ == fold_rep(op, init@, rs.subrange(0, i as int)),
            fold_ok(op, init@, rs.subrange(0, i as int)),
        decreases n - i,
    {
        proof {
            assert(rs.subrange(0, i + 1).drop_last() =~= rs.subrange(0, i as int));
            assert(rs.subrange(0, i + 1).last() == rs[i as int]);
            assert(s@[i as int]@ == rs[i as int]);
        }
        let next = match apply_bin(op, &acc, &s[i]) {
            Ok(v) => v,
            Err(e) => {
                proof {
                    lemma_fold_fail(op, init@, rs, i as int);
                }
                return Err(e);
            },
        };
        acc = next;
        i += 1;
    }
    proof {
        assert(rs.subrange(0, rs.len() as int) =~= rs);
    }
    Ok(acc)
}

/// A failing step makes the whole fold undefined.
proof fn lemma_fold_fail(op: BinOp, init: RepVal, s: Seq<RepVal>, i: int)
    requires
        0 <= i < s.len(),
        fold_ok(op, init, s.subrange(0, i)),
        !bin_ok(op, fold_rep(op, init, s.subrange(0, i)), s[i]),
    ensures
        !fold_ok(op, init, s),
    decreases s.len() - i,
{
    if i == s.len() - 1 {
        assert(s.drop_last() =~= s.subrange(0, i));
        assert(s.last() == s[i]);
    } else {
        assert(s.drop_last().subrange(0, i) =~= s.subrange(0, i));
        assert(s.drop_last()[i] == s[i]);
        lemma_fold_fail(op, init, s.drop_last(), i);
    }
}

/// Pops a vector and pushes the sum of its elements: the wrapping sum
/// of an integer vector (through the SIMD kernel), the kernel sum of a
/// float vector, and the left fold from zero of a general one (or the
/// parallel reduction above the threshold, which agrees on all-integer
/// content).
pub fn op_sum_all(stack: &mut Vec<TinValue>, policy: &ParallelPolicy) -> (r: Result<
    (),
    TinError,
>)
    ensures
        r is Err ==> (r->Err_0 == TinError::EmptyStack || r->Err_0 == TinError::NotAVector),
        r is Ok <==> (old(stack)@.len() > 0 && rep_is_vec(old(stack)@.last()@)),
        r is Ok ==> final(stack)@.len() == old(stack)@.len() && final(stack)@.drop_last() == old(
            stack,
        )@.drop_last(),
        r is Ok && old(stack)@.last()@ is IntVector ==> final(stack)@.last() == TinValue::Int(
            wrap_sum(old(stack)@.last()@->IntVector_0),
        ),
        r is Ok && old(stack)@.last()@ is FloatVector ==> final(stack)@.last() == TinValue::Float(
            simd_sum_f64(old(stack)@.last()@->FloatVector_0),
        ),
        r is Ok && old(stack)@.last()@ is Vector && !(policy.enabled && policy.cores > 2
            && rep_len(old(stack)@.last()@) >= crate::parallelism::PARALLEL_THRESHOLD) ==> final(
            stack
        )@.last()@ == fold_rep(BinOp::Add, RepVal::Int(0), old(stack)@.last()@->Vector_0),
        r is Ok && old(stack)@.last()@ is Vector && all_ints(old(stack)@.last()@->Vector_0)
            ==> final(stack)@.last()@ == RepVal::Int(
            wrap_sum(ints_of(old(stack)@.last()@->Vector_0)),
        ),
{
    broadcast use lemma_rep_seq;

    let top = match stack.pop() {
        Some(v) => v,
        None => {
            return Err(TinError::EmptyStack);
        },
    };
    let ghost trep = top@;
    match top {
        TinValue::Vector(v) => {
            proof {
                assert(trep == RepVal::Vector(rep_seq(v@)));
            }
            if policy.parallelizable(v.len()) {
                let s = par_sum(&v);
                stack.push(s);
                Ok(())
            } else {
                match fold_values(BinOp::Add, TinValue::Int(0), &v) {
                    Ok(s) => {
                        proof {
                            if all_ints(rep_seq(v@)) {
                                lemma_fold_add_ints(rep_seq(v@));
                            }
                        }
                        stack.push(s);
                        Ok(())
                    },
                    Err(e) => {
                        proof {
                            lemma_add_fold_total(RepVal::Int(0), rep_seq(v@));
                        }
                        stack.push(TinValue::Vector(v));
                        Err(TinError::NotAVector)
                    },
                }
            }
        },
        TinValue::IntVector(v) => {
            let s = sum_i64(&v);
            stack.push(TinValue::Int(s));
            Ok(())
        },
        TinValue::FloatVector(v) => {
            let s = sum_f64(&v);
            stack.push(TinValue::Float(s));
            Ok(())
        },
        other => {
            stack.push(other);
            Err(TinError::NotAVector)
        },
    }
}

/// On all-integer content the sequential fold is exactly the wrapping
/// sum, so the sequential and parallel paths agree there.
pub proof fn lemma_fold_add_ints(s: Seq<RepVal>)
    requires
        all_ints(s),
    ensures
        fold_rep(BinOp::Add, RepVal::Int(0), s) == RepVal::Int(wrap_sum(ints_of(s))),
    decreases s.len(),
{
    if s.len() > 0 {
        assert(all_ints(s.drop_last())) by {
            assert(forall|i: int| 0 <= i < s.len() - 1 ==> s.drop_last()[i] == #[trigger] s[i]);
        }
        lemma_fold_add_ints(s.drop_last());
        assert(ints_of(s).drop_last() =~= ints_of(s.drop_last()));
        assert(s.last() is Int);
    }
}

/// On all-integer content the sequential fold is exactly the wrapping
/// product, so the sequential and parallel paths agree there.
pub proof fn lemma_fold_mul_ints(s: Seq<RepVal>)
    requires
        all_ints(s),
    ensures
        fold_rep(BinOp::Mul, RepVal::Int(1), s) == RepVal::Int(wrap_prod(ints_of(s))),
    decreases s.len(),
{
    if s.len() > 0 {
        assert(all_ints(s.drop_last())) by {
            assert(forall|i: int| 0 <= i < s.len() - 1 ==> s.drop_last()[i] == #[trigger] s[i]);
        }
        lemma_fold_mul_ints(s.drop_last());
        assert(ints_of(s).drop_last() =~= ints_of(s.drop_last()));
        assert(s.last() is Int);
    }
}

/// Addition and multiplication folds never fail.
proof fn lemma_add_fold_total(init: RepVal, s: Seq<RepVal>)
    requires
        !(init is Vector),
        !(init is IntVector),
        !(init is FloatVector),
    ensures
        fold_ok(BinOp::Add, init, s),
        fold_ok(BinOp::Mul, init, s),
    decreases s.len(),
{
    if s.len() > 0 {
        lemma_add_fold_total(init, s.drop_last());
        lemma_bin_total(BinOp::Add, fold_rep(BinOp::Add, init, s.drop_last()), s.last());
        lemma_bin_total(BinOp::Mul, fold_rep(BinOp::Mul, init, s.drop_last()), s.last());
    }
}

/// A binary rule with no integer division or remainder is total.
proof fn lemma_bin_total(op: BinOp, a: RepVal, b: RepVal)
    requires
        op != BinOp::Div,
        op != BinOp::Mod,
    ensures
        bin_ok(op, a, b),
    decreases a, b, 2int,
{
    crate::arith::lemma_bin_ok_total(op, a, b);
}

/// Pops a vector and pushes the product of its elements, mirroring the
/// sum in every representation.
pub fn op_mul_all(stack: &mut Vec<TinValue>, policy: &ParallelPolicy) -> (r: Result<
    (),
    TinError,
>)
    ensures
        r is Err ==> (r->Err_0 == TinError::EmptyStack || r->Err_0 == TinError::NotAVector),
        r is Ok <==> (old(stack)@.len() > 0 && rep_is_vec(old(stack)@.last()@)),
        r is Ok ==> final(stack)@.len() == old(stack)@.len() && final(stack)@.drop_last() == old(
            stack,
        )@.drop_last(),
        r is Ok && old(stack)@.last()@ is IntVector ==> final(stack)@.last() == TinValue::Int(
            wrap_prod(old(stack)@.last()@->IntVector_0),
        ),
        r is Ok && old(stack)@.last()@ is FloatVector ==> final(stack)@.last() == TinValue::Float(
            simd_prod_f64(old(stack)@.last()@->FloatVector_0),
        ),
        r is Ok && old(stack)@.last()@ is Vector && !(policy.enabled && policy.cores > 2
            && rep_len(old(stack)@.last()@) >= crate::parallelism::PARALLEL_THRESHOLD) ==> final(
            stack
        )@.last()@ == fold_rep(BinOp::Mul, RepVal::Int(1), old(stack)@.last()@->Vector_0),
        r is Ok && old(stack)@.last()@ is Vector && all_ints(old(stack)@.last()@->Vector_0)
            ==> final(stack)@.last()@ == RepVal::Int(
            wrap_prod(ints_of(old(stack)@.last()@->Vector_0)),
        ),
{
    broadcast use lemma_rep_seq;

    let top = match stack.pop() {
        Some(v) => v,
        None => {
            return Err(TinError::EmptyStack);
        },
    };
    let ghost trep = top@;
    match top {
        TinValue::Vector(v) => {
            proof {
                assert(trep == RepVal::Vector(rep_seq(v@)));
            }
            if policy.parallelizable(v.len()) {
                let s = par_prod(&v);
                stack.push(s);
                Ok(())
            } else {
                match fold_values(BinOp::Mul, TinValue::Int(1), &v) {
                    Ok(s) => {
                        proof {
                            if all_ints(rep_seq(v@)) {
                                lemma_fold_mul_ints(rep_seq(v@));
                            }
                        }
                        stack.push(s);
                        Ok(())
                    },
                    Err(e) => {
                        proof {
                            lemma_add_fold_total(RepVal::Int(1), rep_seq(v@));
                        }
                        stack.push(TinValue::Vector(v));
                        Err(TinError::NotAVector)
                    },
                }
            }
        },
        TinValue::IntVector(v) => {
            let s = prod_i64(&v);
            stack.push(TinValue::Int(s));
            Ok(())
        },
        TinValue::FloatVector(v) => {
            let s = prod_f64_local(&v);
            stack.push(TinValue::Float(s));
            Ok(())
        },
        other => {
            stack.push(other);
            Err(TinError::NotAVector)
        },
    }
}

/// The float product kernel (a thin alias keeping the import local).
fn prod_f64_local(v: &Vec<u64>) -> (r: u64)
    ensures
        r == simd_prod_f64(v@),
{
    crate::simd::prod_f64(v)
}

/// Truthiness over a whole vector: whether some, none or all of the
/// elements are truthy, as an integer flag.
pub open spec fn any_abs(s: Seq<RepVal>) -> bool {
    exists|i: int| 0 <= i < s.len() && truthy_abs(crate::value::abs(#[trigger] s[i]))
}

/// Pops a vector and pushes whether any element is truthy.
#[verifier::loop_isolation(false)]
pub fn op_any(stack: &mut Vec<TinValue>, policy: &ParallelPolicy) -> (r: Result<(), TinError>)
    ensures
        r is Err ==> (r->Err_0 == TinError::EmptyStack || r->Err_0 == TinError::NotAVector),
        r is Ok <==> (old(stack)@.len() > 0 && rep_is_vec(old(stack)@.last()@)),
        r is Ok ==> final(stack)@ == old(stack)@.drop_last().push(
            TinValue::Int(
                if any_abs(rep_items(old(stack)@.last()@)) {
                    1i64
                } else {
                    0i64
                },
            ),
        ),
{
    broadcast use lemma_rep_seq;

    let top = match stack.pop() {
        Some(v) => v,
        None => {
            return Err(TinError::EmptyStack);
        },
    };
    let ghost trep = top@;
    let flag: bool = match &top {
        TinValue::Vector(v) => {
            proof {
                assert(trep == RepVal::Vector(rep_seq(v@)));
            }
            let r = if policy.parallelizable(v.len()) {
                par_any(v)
            } else {
                seq_any(v)
            };
            proof {
                lemma_any_items(trep, v@);
            }
            r
        },
        TinValue::IntVector(v) => {
            let mut found = false;
            let n = v.len();
            let mut i: usize = 0;
            while i < n
                invariant
                    0 <= i <= n,
                    n == v@.len(),
                    found == (exists|j: int| 0 <= j < i && #[trigger] v@[j] != 0),
                decreases n - i,
            {
                if v[i] != 0 {
                    found = true;
                }
                i += 1;
            }
            proof {
                lemma_any_ints(trep, v@, found);
            }
            found
        },
        TinValue::FloatVector(v) => {
            let mut found = false;
            let n = v.len();
            let mut i: usize = 0;
            while i < n
                invariant
                    0 <= i <= n,
                    n == v@.len(),
                    found == (exists|j: int|
                        0 <= j < i && crate::value::truthy_bits(#[trigger] v@[j])),
                decreases n - i,
            {
                if (v[i] & 0x7fff_ffff_ffff_ffff) != 0 {
                    found = true;
                }
                i += 1;
            }
            proof {
                lemma_any_floats(trep, v@, found);
            }
            found
        },
        _ => {
            stack.push(top);
            return Err(TinError::NotAVector);
        },
    };
    stack.push(TinValue::Int(
        if flag {
            1
        } else {
            0
        },
    ));
    Ok(())
}

/// The sequential truthiness scan of a general vector.
#[verifier::loop_isolation(false)]
fn seq_any(v: &Vec<TinValue>) -> (r: bool)
    ensures
        r == (exists|i: int| 0 <= i < v@.len() && truthy_abs(#[trigger] v@[i].am())),
{
    let mut found = false;
    let n = v.len();
    let mut i: usize = 0;
    while i < n
        invariant
            0 <= i <= n,
            n == v@.len(),
            found == (exists|j: int| 0 <= j < i && truthy_abs(#[trigger] v@[j].am())),
        decreases n - i,
    {
        if v[i].truthy() {
            found = true;
        }
        i += 1;
    }
    found
}

/// The element-level and item-level truthiness tests agree.
proof fn lemma_any_items(trep: RepVal, v: Seq<TinValue>)
    requires
        trep == RepVal::Vector(rep_seq(v)),
    ensures
        any_abs(rep_items(trep)) == (exists|i: int|
            0 <= i < v.len() && truthy_abs(#[trigger] v[i].am())),
{
    broadcast use lemma_rep_seq;

    if exists|i: int| 0 <= i < v.len() && truthy_abs(#[trigger] v[i].am()) {
        let i = choose|i: int| 0 <= i < v.len() && truthy_abs(#[trigger] v[i].am());
        assert(rep_items(trep)[i] == rep_elem(trep, i));
        assert(truthy_abs(crate::value::abs(rep_items(trep)[i])));
    }
    if any_abs(rep_items(trep)) {
        let i = choose|i: int|
            0 <= i < rep_items(trep).len() && truthy_abs(
                crate::value::abs(#[trigger] rep_items(trep)[i]),
            );
        assert(rep_items(trep)[i] == rep_elem(trep, i));
        assert(truthy_abs(v[i].am()));
    }
}

/// The integer-vector scan matches the item-level test.
proof fn lemma_any_ints(trep: RepVal, v: Seq<i64>, found: bool)
    requires
        trep == RepVal::IntVector(v),
        found == (exists|j: int| 0 <= j < v.len() && #[trigger] v[j] != 0),
    ensures
        found == any_abs(rep_items(trep)),
{
    if found {
        let j = choose|j: int| 0 <= j < v.len() && #[trigger] v[j] != 0;
        assert(rep_items(trep)[j] == rep_elem(trep, j));
        assert(truthy_abs(crate::value::abs(rep_items(trep)[j])));
    }
    if any_abs(rep_items(trep)) {
        let j = choose|j: int|
            0 <= j < rep_items(trep).len() && truthy_abs(
                crate::value::abs(#[trigger] rep_items(trep)[j]),
            );
        assert(rep_items(trep)[j] == rep_elem(trep, j));
        assert(v[j] != 0);
    }
}

/// The float-vector scan matches the item-level test.
proof fn lemma_any_floats(trep: RepVal, v: Seq<u64>, found: bool)
    requires
        trep == RepVal::FloatVector(v),
        found == (exists|j: int| 0 <= j < v.len() && crate::value::truthy_bits(#[trigger] v[j])),
    ensures
        found == any_abs(rep_items(trep)),
{
    if found {
        let j = choose|j: int|
            0 <= j < v.len() && crate::value::truthy_bits(#[trigger] v[j]);
        assert(rep_items(trep)[j] == rep_elem(trep, j));
        assert(truthy_abs(crate::value::abs(rep_items(trep)[j])));
    }
    if any_abs(rep_items(trep)) {
        let j = choose|j: int|
            0 <= j < rep_items(trep).len() && truthy_abs(
                crate::value::abs(#[trigger] rep_items(trep)[j]),
            );
        assert(rep_items(trep)[j] == rep_elem(trep, j));
        assert(crate::value::truthy_bits(v[j]));
    }
}

/// Pops a vector and pushes whether no element is truthy.
pub fn op_none(stack: &mut Vec<TinValue>, policy: &ParallelPolicy) -> (r: Result<(), TinError>)
    ensures
        r is Err ==> (r->Err_0 == TinError::EmptyStack || r->Err_0 == TinError::NotAVector),
        r is Ok <==> (old(stack)@.len() > 0 && rep_is_vec(old(stack)@.last()@)),
        r is Ok ==> final(stack)@ == old(stack)@.drop_last().push(
            TinValue::Int(
                if any_abs(rep_items(old(stack)@.last()@)) {
                    0i64
                } else {
                    1i64
                },
            ),
        ),
{
    let r = op_any(stack, policy);
    match r {
        Ok(_) => {
            let flag = match stack.pop() {
                Some(TinValue::Int(n)) => n,
                _ => {
                    return Err(TinError::EmptyStack);
                },
            };
            stack.push(TinValue::Int(
                if flag == 0 {
                    1
                } else {
                    0
                },
            ));
            proof {
                assert(stack@ =~= old(stack)@.drop_last().push(
                    TinValue::Int(
                        if any_abs(rep_items(old(stack)@.last()@)) {
                            0i64
                        } else {
                            1i64
                        },
                    ),
                ));
            }
            Ok(())
        },
        Err(e) => Err(e),
    }
}

/// Whether every element of a vector shape is truthy.
pub open spec fn all_abs(s: Seq<RepVal>) -> bool {
    forall|i: int| 0 <= i < s.len() ==> truthy_abs(crate::value::abs(#[trigger] s[i]))
}

/// Pops a vector and pushes whether all elements are truthy.
#[verifier::loop_isolation(false)]
pub fn op_all(stack: &mut Vec<TinValue>, policy: &ParallelPolicy) -> (r: Result<(), TinError>)
    ensures
        r is Err ==> (r->Err_0 == TinError::EmptyStack || r->Err_0 == TinError::NotAVector),
        r is Ok <==> (old(stack)@.len() > 0 && rep_is_vec(old(stack)@.last()@)),
        r is Ok ==> final(stack)@ == old(stack)@.drop_last().push(
            TinValue::Int(
                if all_abs(rep_items(old(stack)@.last()@)) {
                    1i64
                } else {
                    0i64
                },
            ),
        ),
{
    broadcast use lemma_rep_seq;

    let top = match stack.pop() {
        Some(v) => v,
        None => {
            return Err(TinError::EmptyStack);
        },
    };
    let ghost trep = top@;
    let flag: bool = match &top {
        TinValue::Vector(v) => {
            proof {
                assert(trep == RepVal::Vector(rep_seq(v@)));
            }
            let r = if policy.parallelizable(v.len()) {
                par_all(v)
            } else {
                seq_all(v)
            };
            proof {
                lemma_all_items(trep, v@);
            }
            r
        },
        TinValue::IntVector(v) => {
            let mut ok = true;
            let n = v.len();
            let mut i: usize = 0;
            while i < n
                invariant
                    0 <= i <= n,
                    n == v@.len(),
                    ok == (forall|j: int| 0 <= j < i ==> #[trigger] v@[j] != 0),
                decreases n - i,
            {
                if v[i] == 0 {
                    ok = false;
                }
                i += 1;
            }
            proof {
                lemma_all_ints(trep, v@, ok);
            }
            ok
        },
        TinValue::FloatVector(v) => {
            let mut ok = true;
            let n = v.len();
            let mut i: usize = 0;
            while i < n
                invariant
                    0 <= i <= n,
                    n == v@.len(),
                    ok == (forall|j: int|
                        0 <= j < i ==> crate::value::truthy_bits(#[trigger] v@[j])),
                decreases n - i,
            {
                if (v[i] & 0x7fff_ffff_ffff_ffff) == 0 {
                    ok = false;
                }
                i += 1;
            }
            proof {
                lemma_all_floats(trep, v@, ok);
            }
            ok
        },
        _ => {
            stack.push(top);
            return Err(TinError::NotAVector);
        },
    };
    stack.push(TinValue::Int(
        if flag {
            1
        } else {
            0
        },
    ));
    Ok(())
}

/// The sequential all-truthy scan of a general vector.
#[verifier::loop_isolation(false)]
fn seq_all(v: &Vec<TinValue>) -> (r: bool)
    ensures
        r == (forall|i: int| 0 <= i < v@.len() ==> truthy_abs(#[trigger] v@[i].am())),
{
    let mut ok = true;
    let n = v.len();
    let mut i: usize = 0;
    while i < n
        invariant
            0 <= i <= n,
            n == v@.len(),
            ok == (forall|j: int| 0 <= j < i ==> truthy_abs(#[trigger] v@[j].am())),
        decreases n - i,
    {
        if !v[i].truthy() {
            ok = false;
        }
        i += 1;
    }
    ok
}

/// The element-level and item-level all-truthy tests agree.
proof fn lemma_all_items(trep: RepVal, v: Seq<TinValue>)
    requires
        trep == RepVal::Vector(rep_seq(v)),
    ensures
        all_abs(rep_items(trep)) == (forall|i: int|
            0 <= i < v.len() ==> truthy_abs(#[trigger] v[i].am())),
{
    broadcast use lemma_rep_seq;

    if forall|i: int| 0 <= i < v.len() ==> truthy_abs(#[trigger] v[i].am()) {
        assert forall|i: int|
            0 <= i < rep_items(trep).len() implies truthy_abs(
            crate::value::abs(#[trigger] rep_items(trep)[i]),
        ) by {
            assert(rep_items(trep)[i] == rep_elem(trep, i));
            assert(truthy_abs(v[i].am()));
        }
    }
    if all_abs(rep_items(trep)) {
        assert forall|i: int| 0 <= i < v.len() implies truthy_abs(#[trigger] v[i].am()) by {
            assert(rep_items(trep)[i] == rep_elem(trep, i));
            assert(truthy_abs(crate::value::abs(rep_items(trep)[i])));
        }
    }
}

/// The integer-vector scan matches the item-level all-truthy test.
proof fn lemma_all_ints(trep: RepVal, v: Seq<i64>, ok: bool)
    requires
        trep == RepVal::IntVector(v),
        ok == (forall|j: int| 0 <= j < v.len() ==> #[trigger] v[j] != 0),
    ensures
        ok == all_abs(rep_items(trep)),
{
    if ok {
        assert forall|i: int|
            0 <= i < rep_items(trep).len() implies truthy_abs(
            crate::value::abs(#[trigger] rep_items(trep)[i]),
        ) by {
            assert(rep_items(trep)[i] == rep_elem(trep, i));
        }
    }
    if all_abs(rep_items(trep)) {
        assert forall|j: int| 0 <= j < v.len() implies #[trigger] v[j] != 0 by {
            assert(rep_items(trep)[j] == rep_elem(trep, j));
            assert(truthy_abs(crate::value::abs(rep_items(trep)[j])));
        }
    }
}

/// The float-vector scan matches the item-level all-truthy test.
proof fn lemma_all_floats(trep: RepVal, v: Seq<u64>, ok: bool)
    requires
        trep == RepVal::FloatVector(v),
        ok == (forall|j: int| 0 <= j < v.len() ==> crate::value::truthy_bits(#[trigger] v[j])),
    ensures
        ok == all_abs(rep_items(trep)),
{
    if ok {
        assert forall|i: int|
            0 <= i < rep_items(trep).len() implies truthy_abs(
            crate::value::abs(#[trigger] rep_items(trep)[i]),
        ) by {
            assert(rep_items(trep)[i] == rep_elem(trep, i));
        }
    }
    if all_abs(rep_items(trep)) {
        assert forall|j: int| 0 <= j < v.len() implies crate::value::truthy_bits(
            #[trigger] v[j],
        ) by {
            assert(rep_items(trep)[j] == rep_elem(trep, j));
            assert(truthy_abs(crate::value::abs(rep_items(trep)[j])));
        }
    }
}

/// How many elements of the sequence equal `x` numerically.
pub open spec fn count_eq(s: Seq<RepVal>, x: AbsVal) -> int
    decreases s.len(),
{
    if s.len() == 0 {
        0
    } else {
        count_eq(s.drop_last(), x) + (if eq_abs(crate::value::abs(s.last()), x) {
            1int
        } else {
            0int
        })
    }
}

/// Pops a probe and a vector and pushes how many elements equal the
/// probe.
#[verifier::loop_isolation(false)]
pub fn op_count(stack: &mut Vec<TinValue>, keep: bool) -> (r: Result<(), TinError>)
    ensures
        r is Err ==> (r->Err_0 == TinError::EmptyStack || r->Err_0 == TinError::NotAVector),
        r is Ok <==> (old(stack)@.len() >= 2 && rep_is_vec(old(stack)@[old(stack)@.len() - 2]@)),
        r is Ok && !keep ==> final(stack)@ == old(stack)@.drop_last().drop_last().push(
            TinValue::Int(
                count_i64(
                    rep_items(old(stack)@[old(stack)@.len() - 2]@),
                    crate::value::abs(old(stack)@.last()@),
                ),
            ),
        ),
        r is Ok && keep ==> final(stack)@ == old(stack)@.drop_last().push(
            TinValue::Int(
                count_i64(
                    rep_items(old(stack)@[old(stack)@.len() - 2]@),
                    crate::value::abs(old(stack)@.last()@),
                ),
            ),
        ),
{
    broadcast use lemma_rep_seq;

    let probe = match stack.pop() {
        Some(v) => v,
        None => {
            return Err(TinError::EmptyStack);
        },
    };
    let v = match stack.pop() {
        Some(v) => v,
        None => {
            stack.push(probe);
            return Err(TinError::EmptyStack);
        },
    };
    let ghost vrep = v@;
    let is_v = match &v {
        TinValue::Int(_) => false,
        TinValue::Float(_) => false,
        _ => true,
    };
    if !is_v {
        stack.push(v);
        stack.push(probe);
        return Err(TinError::NotAVector);
    }
    let n = crate::ops_index::len_of(&v);
    let mut c: usize = 0;
    let mut i: usize = 0;
    while i < n
        invariant
            0 <= i <= n,
            n == rep_len(vrep),
            v.is_vector_rep() && v@ == vrep,
            0 <= c <= i,
            c == count_eq(rep_items(vrep).subrange(0, i as int), probe.am()),
        decreases n - i,
    {
        let e = crate::ops_index::elem_of(&v, i);
        proof {
            assert(rep_items(vrep).subrange(0, i + 1).drop_last() =~= rep_items(vrep).subrange(
                0,
                i as int,
            ));
            assert(rep_items(vrep).subrange(0, i + 1).last() == rep_elem(vrep, i as int));
        }
        if eq_value(&e, &probe) {
            c += 1;
        }
        i += 1;
    }
    proof {
        assert(rep_items(vrep).subrange(0, rep_items(vrep).len() as int) =~= rep_items(vrep));
    }
    if keep {
        stack.push(v);
    }
    stack.push(TinValue::Int(#[verifier::truncate] (c as i64)));
    Ok(())
}

/// The count as a machine integer (counts never exceed the length).
pub open spec fn count_i64(s: Seq<RepVal>, x: AbsVal) -> i64 {
    count_eq(s, x) as i64
}

/// The indices whose elements equal `x` numerically, in order.
pub open spec fn indices_eq(s: Seq<RepVal>, x: AbsVal) -> Seq<i64>
    decreases s.len(),
{
    if s.len() == 0 {
        Seq::empty()
    } else if eq_abs(crate::value::abs(s.last()), x) {
        indices_eq(s.drop_last(), x) + seq![(s.len() - 1) as i64]
    } else {
        indices_eq(s.drop_last(), x)
    }
}

/// Pops a probe and a vector and pushes the integer vector of indices
/// whose elements equal the probe.
#[verifier::loop_isolation(false)]
pub fn op_index_of(stack: &mut Vec<TinValue>, keep: bool) -> (r: Result<(), TinError>)
    ensures
        r is Err ==> (r->Err_0 == TinError::EmptyStack || r->Err_0 == TinError::NotAVector),
        r is Ok <==> (old(stack)@.len() >= 2 && rep_is_vec(old(stack)@[old(stack)@.len() - 2]@)),
        r is Ok && !keep ==> final(stack)@.len() == old(stack)@.len() - 1 && final(
            stack
        )@.drop_last() == old(stack)@.drop_last().drop_last() && final(stack)@.last()@
            == RepVal::IntVector(
            indices_eq(
                rep_items(old(stack)@[old(stack)@.len() - 2]@),
                crate::value::abs(old(stack)@.last()@),
            ),
        ),
        r is Ok && keep ==> final(stack)@.len() == old(stack)@.len() && final(stack)@.drop_last()
            == old(stack)@.drop_last() && final(stack)@.last()@ == RepVal::IntVector(
            indices_eq(
                rep_items(old(stack)@[old(stack)@.len() - 2]@),
                crate::value::abs(old(stack)@.last()@),
            ),
        ),
{
    broadcast use lemma_rep_seq;

    let probe = match stack.pop() {
        Some(v) => v,
        None => {
            return Err(TinError::EmptyStack);
        },
    };
    let v = match stack.pop() {
        Some(v) => v,
        None => {
            stack.push(probe);
            return Err(TinError::EmptyStack);
        },
    };
    let ghost vrep = v@;
    let is_v = match &v {
        TinValue::Int(_) => false,
        TinValue::Float(_) => false,
        _ => true,
    };
    if !is_v {
        stack.push(v);
        stack.push(probe);
        return Err(TinError::NotAVector);
    }
    let n = crate::ops_index::len_of(&v);
    let mut out: Vec<i64> = Vec::new();
    let mut i: usize = 0;
    while i < n
        invariant
            0 <= i <= n,
            n == rep_len(vrep),
            v.is_vector_rep() && v@ == vrep,
            out@ == indices_eq(rep_items(vrep).subrange(0, i as int), probe.am()),
        decreases n - i,
    {
        let e = crate::ops_index::elem_of(&v, i);
        proof {
            assert(rep_items(vrep).subrange(0, i + 1).drop_last() =~= rep_items(vrep).subrange(
                0,
                i as int,
            ));
            assert(rep_items(vrep).subrange(0, i + 1).last() == rep_elem(vrep, i as int));
        }
        if eq_value(&e, &probe) {
            out.push(#[verifier::truncate] (i as i64));
        }
        i += 1;
    }
    proof {
        assert(rep_items(vrep).subrange(0, rep_items(vrep).len() as int) =~= rep_items(vrep));
    }
    if keep {
        stack.push(v);
    }
    stack.push(TinValue::IntVector(out));
    Ok(())
}

/// Writes a value's display text to the output buffer, with an optional
/// trailing line break.
pub fn op_print(stack: &mut Vec<TinValue>, out: &mut Vec<char>, line: bool) -> (r: Result<
    (),
    TinError,
>)
    ensures
        r is Err ==> r->Err_0 == TinError::EmptyStack,
        r is Ok <==> old(stack)@.len() > 0,
        r is Ok ==> final(stack)@ == old(stack)@.drop_last() && final(out)@ == old(out)@ + disp(
            old(stack)@.last()@,
        ) + (if line {
            seq!['\n']
        } else {
            Seq::<char>::empty()
        }),
        r is Err ==> final(out)@ == old(out)@,
{
    let top = match stack.pop() {
        Some(v) => v,
        None => {
            return Err(TinError::EmptyStack);
        },
    };
    let mut text = disp_value(&top);
    out.append(&mut text);
    if line {
        out.push('\n');
        proof {
            assert(out@ =~= old(out)@ + disp(old(stack)@.last()@) + seq!['\n']);
        }
    } else {
        proof {
            assert(out@ =~= old(out)@ + disp(old(stack)@.last()@) + Seq::<char>::empty());
        }
    }
    Ok(())
}

/// Writes a value's character-code reading to the output buffer, with an
/// optional trailing line break.
pub fn op_print_str(stack: &mut Vec<TinValue>, out: &mut Vec<char>, line: bool) -> (r: Result<
    (),
    TinError,
>)
    ensures
        r is Err ==> (r->Err_0 == TinError::EmptyStack || r->Err_0 == TinError::NotAChar),
        r is Ok <==> (old(stack)@.len() > 0 && mapped(old(stack)@.last()@) is Some),
        r is Ok ==> final(stack)@ == old(stack)@.drop_last() && final(out)@ == old(out)@ + mapped(
            old(stack)@.last()@,
        )->Some_0 + (if line {
            seq!['\n']
        } else {
            Seq::<char>::empty()
        }),
        r is Err ==> final(out)@ == old(out)@,
{
    let top = match stack.pop() {
        Some(v) => v,
        None => {
            return Err(TinError::EmptyStack);
        },
    };
    let mut text = match mapped_value(&top) {
        Ok(t) => t,
        Err(e) => {
            stack.push(top);
            return Err(e);
        },
    };
    out.append(&mut text);
    if line {
        out.push('\n');
        proof {
            assert(out@ =~= old(out)@ + mapped(old(stack)@.last()@)->Some_0 + seq!['\n']);
        }
    } else {
        proof {
            assert(out@ =~= old(out)@ + mapped(old(stack)@.last()@)->Some_0
                + Seq::<char>::empty());
        }
    }
    Ok(())
}

} // verus!
