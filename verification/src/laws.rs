//! Laws of the lattice that relate several operations, stated over the
//! same spec functions the operations' own contracts use.
use vstd::prelude::*;

use crate::arith::bin_map_r;
use crate::arith::bin_rep;
use crate::arith::bin_sl;
use crate::arith::int_bin;
use crate::arith::lemma_bin_map_r;
use crate::arith::lemma_sl_map;
use crate::arith::sl_map;
use crate::arith::BinOp;
use crate::value::cmp_abs;
use crate::value::eq_abs;
use crate::value::int_only;
use crate::value::AbsVal;
use crate::value::RepVal;

verus! {

/// Whether an operation is commutative on scalars of every kind.
pub open spec fn is_commutative(op: BinOp) -> bool {
    match op {
        BinOp::Add => true,
        BinOp::Mul => true,
        BinOp::Or => true,
        BinOp::And => true,
        _ => false,
    }
}

/// Whether every scalar reachable in a mirror is an integer.
pub open spec fn deep_int(r: RepVal) -> bool
    decreases r, 0int,
{
    match r {
        RepVal::Int(_) => true,
        RepVal::Float(_) => false,
        RepVal::IntVector(_) => true,
        RepVal::FloatVector(_) => false,
        RepVal::Vector(s) => deep_int_seq(s),
    }
}

/// Whether every scalar reachable in a sequence of mirrors is an
/// integer.
pub open spec fn deep_int_seq(s: Seq<RepVal>) -> bool
    decreases s, 1int,
{
    if s.len() == 0 {
        true
    } else {
        deep_int(s[0]) && deep_int_seq(s.drop_first())
    }
}

/// Elements of a deeply-integer sequence are deeply integer.
pub proof fn lemma_deep_int_elem(s: Seq<RepVal>, i: int)
    requires
        deep_int_seq(s),
        0 <= i < s.len(),
    ensures
        deep_int(s[i]),
    decreases i,
{
    if i > 0 {
        lemma_deep_int_elem(s.drop_first(), i - 1);
        assert(s.drop_first()[i - 1] == s[i]);
    }
}

/// A commutative operation on integer scalars commutes.
proof fn lemma_int_bin_comm(op: BinOp, x: i64, y: i64)
    requires
        is_commutative(op),
    ensures
        int_bin(op, x, y) == int_bin(op, y, x),
{
}

/// A scalar combined with a vector from the left agrees elementwise
/// with the vector combined with the scalar from the right, for every
/// commutative operation, over integer-valued content: the broadcast
/// lattice treats the two orders alike.
pub proof fn lemma_broadcast_comm(op: BinOp, a: RepVal, b: RepVal)
    requires
        is_commutative(op),
        a is Int,
        deep_int(b),
    ensures
        bin_rep(op, a, b) == bin_rep(op, b, a),
    decreases b,
{
    let x = a->Int_0;
    match b {
        RepVal::Int(y) => {
            lemma_int_bin_comm(op, x, y);
        },
        RepVal::IntVector(s) => {
            assert(bin_rep(op, a, b) == bin_sl(op, a, b));
            assert(bin_sl(op, a, b) == RepVal::IntVector(
                Seq::new(s.len(), |i: int| int_bin(op, x, s[i])),
            ));
            assert(bin_rep(op, b, a) == RepVal::IntVector(
                Seq::new(s.len(), |i: int| int_bin(op, s[i], x)),
            ));
            assert forall|i: int| 0 <= i < s.len() implies int_bin(op, x, #[trigger] s[i])
                == int_bin(op, s[i], x) by {
                lemma_int_bin_comm(op, x, s[i]);
            }
            assert(Seq::new(s.len(), |i: int| int_bin(op, x, s[i])) =~= Seq::new(
                s.len(),
                |i: int| int_bin(op, s[i], x),
            ));
        },
        RepVal::Vector(s) => {
            lemma_sl_map(op, a, s);
            lemma_bin_map_r(op, s, a);
            assert(bin_rep(op, a, b) == RepVal::Vector(sl_map(op, a, s)));
            assert(bin_rep(op, b, a) == RepVal::Vector(bin_map_r(op, s, a)));
            assert forall|i: int| 0 <= i < s.len() implies sl_map(op, a, s)[i] == bin_map_r(
                op,
                s,
                a,
            )[i] by {
                lemma_deep_int_elem(s, i);
                lemma_broadcast_comm(op, a, s[i]);
                assert(bin_sl(op, a, s[i]) == bin_rep(op, a, s[i]));
            }
            assert(sl_map(op, a, s) =~= bin_map_r(op, s, a));
        },
        _ => {},
    }
}

/// Over integer-valued content a comparison that ties is an equality.
pub proof fn lemma_cmp_zero_eq(a: AbsVal, b: AbsVal)
    requires
        int_only(a),
        int_only(b),
        cmp_abs(a, b) == 0,
    ensures
        eq_abs(a, b),
    decreases a, b, 1int,
{
    match (a, b) {
        (AbsVal::Vect(x), AbsVal::Vect(y)) => {
            lemma_cmp_seq_zero(x, y, 0);
        },
        _ => {},
    }
}

/// A tied lexicographic comparison of integer-valued sequences means
/// equal lengths and elementwise equality from `i` on.
proof fn lemma_cmp_seq_zero(x: Seq<AbsVal>, y: Seq<AbsVal>, i: int)
    requires
        forall|j: int| 0 <= j < x.len() ==> int_only(#[trigger] x[j]),
        forall|j: int| 0 <= j < y.len() ==> int_only(#[trigger] y[j]),
        0 <= i,
        crate::value::cmp_seq_at(x, y, i) == 0,
    ensures
        x.len() == y.len(),
        forall|j: int| i <= j < x.len() ==> eq_abs(#[trigger] x[j], y[j]),
    decreases x, y, x.len() + y.len() - i,
{
    let n = if x.len() <= y.len() {
        x.len() as int
    } else {
        y.len() as int
    };
    if i < n {
        lemma_cmp_seq_zero(x, y, i + 1);
        lemma_cmp_zero_eq(x[i], y[i]);
    }
}

/// Any two maximal elements of an integer-valued vector are numerically
/// equal, so the sequential scan and the parallel reduction return equal
/// maxima (and symmetrically for minima).
pub proof fn lemma_extrema_agree(s: Seq<AbsVal>, a: AbsVal, b: AbsVal)
    requires
        forall|j: int| 0 <= j < s.len() ==> int_only(#[trigger] s[j]),
        exists|i: int| 0 <= i < s.len() && s[i] == a,
        exists|i: int| 0 <= i < s.len() && s[i] == b,
        forall|i: int| 0 <= i < s.len() ==> cmp_abs(a, #[trigger] s[i]) >= 0,
        forall|i: int| 0 <= i < s.len() ==> cmp_abs(b, #[trigger] s[i]) >= 0,
    ensures
        eq_abs(a, b),
{
    let ia = choose|i: int| 0 <= i < s.len() && s[i] == a;
    let ib = choose|i: int| 0 <= i < s.len() && s[i] == b;
    lemma_cmp_antisym(a, b);
    lemma_cmp_zero_eq(a, b);
}

/// Over integer-valued content the comparison is antisymmetric.
pub proof fn lemma_cmp_antisym(a: AbsVal, b: AbsVal)
    requires
        int_only(a),
        int_only(b),
        cmp_abs(a, b) >= 0,
        cmp_abs(b, a) >= 0,
    ensures
        cmp_abs(a, b) == 0,
    decreases a, b, 1int,
{
    match (a, b) {
        (AbsVal::Vect(x), AbsVal::Vect(y)) => {
            lemma_cmp_seq_antisym(x, y, 0);
        },
        _ => {},
    }
}

/// The lexicographic comparison of integer-valued sequences is
/// antisymmetric from `i` on.
proof fn lemma_cmp_seq_antisym(x: Seq<AbsVal>, y: Seq<AbsVal>, i: int)
    requires
        forall|j: int| 0 <= j < x.len() ==> int_only(#[trigger] x[j]),
        forall|j: int| 0 <= j < y.len() ==> int_only(#[trigger] y[j]),
        0 <= i,
        crate::value::cmp_seq_at(x, y, i) >= 0,
        crate::value::cmp_seq_at(y, x, i) >= 0,
    ensures
        crate::value::cmp_seq_at(x, y, i) == 0,
    decreases x, y, x.len() + y.len() - i,
{
    let n = if x.len() <= y.len() {
        x.len() as int
    } else {
        y.len() as int
    };
    if i < n {
        lemma_cmp_scalar_antisym(x[i], y[i]);
        if cmp_abs(x[i], y[i]) == 0 {
            lemma_cmp_seq_antisym(x, y, i + 1);
        }
    }
}

/// The comparison of two integer-valued values is antisymmetric at the
/// top level.
proof fn lemma_cmp_scalar_antisym(a: AbsVal, b: AbsVal)
    requires
        int_only(a),
        int_only(b),
    ensures
        cmp_abs(a, b) >= 0 && cmp_abs(b, a) >= 0 ==> cmp_abs(a, b) == 0 && cmp_abs(b, a) == 0,
    decreases a, b, 2int,
{
    match (a, b) {
        (AbsVal::Vect(x), AbsVal::Vect(y)) => {
            if cmp_abs(a, b) >= 0 && cmp_abs(b, a) >= 0 {
                lemma_cmp_seq_antisym(x, y, 0);
                lemma_cmp_seq_antisym2(x, y, 0);
            }
        },
        _ => {},
    }
}

/// A tied forward comparison forces the backward comparison to tie.
proof fn lemma_cmp_seq_antisym2(x: Seq<AbsVal>, y: Seq<AbsVal>, i: int)
    requires
        forall|j: int| 0 <= j < x.len() ==> int_only(#[trigger] x[j]),
        forall|j: int| 0 <= j < y.len() ==> int_only(#[trigger] y[j]),
        0 <= i,
        crate::value::cmp_seq_at(x, y, i) == 0,
    ensures
        crate::value::cmp_seq_at(y, x, i) == 0,
    decreases x, y, x.len() + y.len() - i,
{
    let n = if x.len() <= y.len() {
        x.len() as int
    } else {
        y.len() as int
    };
    if i < n {
        lemma_cmp_scalar_swap(x[i], y[i]);
        lemma_cmp_seq_antisym2(x, y, i + 1);
    }
}

/// Swapping the arguments of an integer-valued comparison flips its
/// sign.
proof fn lemma_cmp_scalar_swap(a: AbsVal, b: AbsVal)
    requires
        int_only(a),
        int_only(b),
    ensures
        cmp_abs(a, b) == 0 ==> cmp_abs(b, a) == 0,
    decreases a, b, 2int,
{
    match (a, b) {
        (AbsVal::Vect(x), AbsVal::Vect(y)) => {
            if cmp_abs(a, b) == 0 {
                lemma_cmp_seq_antisym2(x, y, 0);
            }
        },
        _ => {},
    }
}

} // verus!
