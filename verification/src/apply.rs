//! Executable form of the arithmetic lattice: `apply_bin` and `apply_un`
//! compute exactly `bin_rep` / `un_rep` over every pairing of the five
//! value shapes, and fail exactly where `bin_ok` fails (an integer
//! division or remainder that is undefined).
use vstd::prelude::*;

use crate::arith::bin_ok;
use crate::arith::bin_rep;
use crate::arith::bin_sl;
use crate::arith::bin_zip;
use crate::arith::bin_map_r;
use crate::arith::fflag;
use crate::arith::flag;
use crate::arith::floats_rep;
use crate::arith::fop_bits;
use crate::arith::int_bin;
use crate::arith::int_ok;
use crate::arith::ints_rep;
use crate::arith::is_flag_op;
use crate::arith::lemma_bin_map_r;
use crate::arith::lemma_bin_zip;
use crate::arith::lemma_ok_map_r;
use crate::arith::lemma_ok_sl_map;
use crate::arith::lemma_ok_zip;
use crate::arith::lemma_ok_zip_fv;
use crate::arith::lemma_ok_zip_iv;
use crate::arith::lemma_sl_map;
use crate::arith::lemma_zip_fv;
use crate::arith::lemma_zip_iv;
use crate::arith::min_len;
use crate::arith::ok_map_r;
use crate::arith::ok_sl;
use crate::arith::ok_sl_map;
use crate::arith::ok_zip;
use crate::arith::ok_zip_fv;
use crate::arith::ok_zip_iv;
use crate::arith::pow_wrap;
use crate::arith::scalar_ok;
use crate::arith::scalar_rep;
use crate::arith::sl_map;
use crate::arith::zip_fv;
use crate::arith::zip_iv;
use crate::arith::BinOp;
use crate::arith::UnOp;
use crate::errors::TinError;
use crate::fbits::fl_add;
use crate::fbits::fl_ceil_int;
use crate::fbits::fl_div;
use crate::fbits::fl_floor_int;
use crate::fbits::fl_is_nan;
use crate::fbits::fl_key_le;
use crate::fbits::fl_mul;
use crate::fbits::fl_of_int;
use crate::fbits::fl_pow;
use crate::fbits::fl_rem;
use crate::fbits::fl_sqrt;
use crate::fbits::fl_sub;
use crate::fbits::fceil_int;
use crate::fbits::ffloor_int;
use crate::fbits::fsqrt_bits;
use crate::value::i2f_bits;
use crate::value::lemma_rep_seq;
use crate::value::rep_of;
use crate::value::rep_seq;
use crate::value::truthy_bits;
use crate::value::RepVal;
use crate::value::TinValue;

verus! {

broadcast use vstd::std_specs::vec::group_vec_axioms;

/// Whether the operation returns an integer flag whatever the operands.
pub fn is_flag(op: BinOp) -> (r: bool)
    ensures
        r == is_flag_op(op),
{
    match op {
        BinOp::Lt => true,
        BinOp::Leq => true,
        BinOp::Gt => true,
        BinOp::Geq => true,
        BinOp::Or => true,
        BinOp::And => true,
        _ => false,
    }
}

/// Wrapping integer power: `e` successive wrapping multiplications.
pub fn pow_wrap_exec(x: i64, e: u32) -> (r: i64)
    ensures
        r == pow_wrap(x, e as nat),
{
    let mut acc: i64 = 1;
    let mut i: u32 = 0;
    while i < e
        invariant
            0 <= i <= e,
            acc == pow_wrap(x, i as nat),
        decreases e - i,
    {
        acc = x.wrapping_mul(acc);
        i += 1;
    }
    acc
}

/// Integer-by-integer operation; exactly `int_bin` where `int_ok` holds.
pub fn int_bin_exec(op: BinOp, x: i64, y: i64) -> (r: Result<i64, TinError>)
    ensures
        r is Ok <==> int_ok(op, x, y),
        r is Ok ==> r->Ok_0 == int_bin(op, x, y),
        r is Err ==> (r->Err_0 == TinError::DivisionByZero || r->Err_0 == TinError::Overflow),
{
    match op {
        BinOp::Add => Ok(x.wrapping_add(y)),
        BinOp::Sub => Ok(x.wrapping_sub(y)),
        BinOp::Mul => Ok(x.wrapping_mul(y)),
        BinOp::Div => {
            match x.checked_div(y) {
                Some(v) => Ok(v),
                None => {
                    if y == 0 {
                        Err(TinError::DivisionByZero)
                    } else {
                        Err(TinError::Overflow)
                    }
                },
            }
        },
        BinOp::Mod => {
            match x.checked_rem(y) {
                Some(v) => Ok(v),
                None => {
                    if y == 0 {
                        Err(TinError::DivisionByZero)
                    } else {
                        Err(TinError::Overflow)
                    }
                },
            }
        },
        BinOp::Pow => Ok(pow_wrap_exec(x, #[verifier::truncate] (y as u32))),
        BinOp::Lt => Ok(if x < y {
            1
        } else {
            0
        }),
        BinOp::Leq => Ok(if x <= y {
            1
        } else {
            0
        }),
        BinOp::Gt => Ok(if x > y {
            1
        } else {
            0
        }),
        BinOp::Geq => Ok(if x >= y {
            1
        } else {
            0
        }),
        BinOp::Or => Ok(if x != 0 || y != 0 {
            1
        } else {
            0
        }),
        BinOp::And => Ok(if x != 0 && y != 0 {
            1
        } else {
            0
        }),
    }
}

/// Float-by-float flag operation.
pub fn fl_flag_exec(op: BinOp, x: u64, y: u64) -> (r: i64)
    requires
        is_flag_op(op),
    ensures
        r == fflag(op, x, y),
{
    match op {
        BinOp::Lt => {
            if !fl_is_nan(x) && !fl_is_nan(y) && !fl_key_le(y, x) {
                1
            } else {
                0
            }
        },
        BinOp::Leq => {
            if !fl_is_nan(x) && !fl_is_nan(y) && fl_key_le(x, y) {
                1
            } else {
                0
            }
        },
        BinOp::Gt => {
            if !fl_is_nan(x) && !fl_is_nan(y) && !fl_key_le(x, y) {
                1
            } else {
                0
            }
        },
        BinOp::Geq => {
            if !fl_is_nan(x) && !fl_is_nan(y) && fl_key_le(y, x) {
                1
            } else {
                0
            }
        },
        BinOp::Or => {
            if (x & 0x7fff_ffff_ffff_ffff) != 0 || (y & 0x7fff_ffff_ffff_ffff) != 0 {
                1
            } else {
                0
            }
        },
        _ => {
            if (x & 0x7fff_ffff_ffff_ffff) != 0 && (y & 0x7fff_ffff_ffff_ffff) != 0 {
                1
            } else {
                0
            }
        },
    }
}

/// Float-by-float arithmetic operation, as bits.
pub fn fl_arith(op: BinOp, x: u64, y: u64) -> (r: u64)
    requires
        !is_flag_op(op),
    ensures
        r == fop_bits(op, x, y),
{
    match op {
        BinOp::Add => fl_add(x, y),
        BinOp::Sub => fl_sub(x, y),
        BinOp::Mul => fl_mul(x, y),
        BinOp::Div => fl_div(x, y),
        BinOp::Mod => fl_rem(x, y),
        _ => fl_pow(x, y),
    }
}

/// Scalar-by-scalar operation; exactly `scalar_rep` where `scalar_ok`
/// holds.
pub fn scalar_bin_exec(op: BinOp, a: &TinValue, b: &TinValue) -> (r: Result<TinValue, TinError>)
    requires
        a.is_scalar(),
        b.is_scalar(),
    ensures
        r is Ok <==> scalar_ok(op, a@, b@),
        r is Ok ==> r->Ok_0@ == scalar_rep(op, a@, b@),
        r is Err ==> (r->Err_0 == TinError::DivisionByZero || r->Err_0 == TinError::Overflow),
{
    match (a, b) {
        (TinValue::Int(x), TinValue::Int(y)) => {
            match int_bin_exec(op, *x, *y) {
                Ok(v) => Ok(TinValue::Int(v)),
                Err(e) => Err(e),
            }
        },
        (TinValue::Int(x), TinValue::Float(y)) => {
            match op {
                BinOp::Or => Ok(
                    TinValue::Int(
                        if *x != 0 || (*y & 0x7fff_ffff_ffff_ffff) != 0 {
                            1
                        } else {
                            0
                        },
                    ),
                ),
                BinOp::And => Ok(
                    TinValue::Int(
                        if *x != 0 && (*y & 0x7fff_ffff_ffff_ffff) != 0 {
                            1
                        } else {
                            0
                        },
                    ),
                ),
                _ => {
                    if is_flag(op) {
                        Ok(TinValue::Int(fl_flag_exec(op, fl_of_int(*x), *y)))
                    } else {
                        Ok(TinValue::Float(fl_arith(op, fl_of_int(*x), *y)))
                    }
                },
            }
        },
        (TinValue::Float(x), TinValue::Int(y)) => {
            match op {
                BinOp::Or => Ok(
                    TinValue::Int(
                        if (*x & 0x7fff_ffff_ffff_ffff) != 0 || *y != 0 {
                            1
                        } else {
                            0
                        },
                    ),
                ),
                BinOp::And => Ok(
                    TinValue::Int(
                        if (*x & 0x7fff_ffff_ffff_ffff) != 0 && *y != 0 {
                            1
                        } else {
                            0
                        },
                    ),
                ),
                _ => {
                    if is_flag(op) {
                        Ok(TinValue::Int(fl_flag_exec(op, *x, fl_of_int(*y))))
                    } else {
                        Ok(TinValue::Float(fl_arith(op, *x, fl_of_int(*y))))
                    }
                },
            }
        },
        (TinValue::Float(x), TinValue::Float(y)) => {
            if is_flag(op) {
                Ok(TinValue::Int(fl_flag_exec(op, *x, *y)))
            } else {
                Ok(TinValue::Float(fl_arith(op, *x, *y)))
            }
        },
        _ => Err(TinError::Overflow),
    }
}

/// Broadcast of a scalar (left) over any value: exactly `bin_sl` where
/// `ok_sl` holds.
#[verifier::loop_isolation(false)]
pub fn bin_scalar_with(op: BinOp, a: &TinValue, b: &TinValue) -> (r: Result<TinValue, TinError>)
    requires
        a.is_scalar(),
    ensures
        r is Ok <==> ok_sl(op, a@, b@),
        r is Ok ==> r->Ok_0@ == bin_sl(op, a@, b@),
        r is Err ==> (r->Err_0 == TinError::DivisionByZero || r->Err_0 == TinError::Overflow),
    decreases *b,
{
    broadcast use lemma_rep_seq, lemma_sl_map, lemma_ok_sl_map;

    match b {
        TinValue::Int(_) => {
            proof {
                assert(ok_sl(op, a@, b@) == scalar_ok(op, a@, b@));
                assert(bin_sl(op, a@, b@) == scalar_rep(op, a@, b@));
            }
            scalar_bin_exec(op, a, b)
        },
        TinValue::Float(_) => {
            proof {
                assert(ok_sl(op, a@, b@) == scalar_ok(op, a@, b@));
                assert(bin_sl(op, a@, b@) == scalar_rep(op, a@, b@));
            }
            scalar_bin_exec(op, a, b)
        },
        TinValue::Vector(s) => {
            let ghost bs = rep_seq(s@);
            proof {
                assert(b@ == RepVal::Vector(bs));
                assert(ok_sl(op, a@, b@) == ok_sl_map(op, a@, bs));
                assert(bin_sl(op, a@, b@) == RepVal::Vector(sl_map(op, a@, bs)));
            }
            let n = s.len();
            let mut out: Vec<TinValue> = Vec::new();
            let mut i: usize = 0;
            while i < n
                invariant
                    0 <= i <= n,
                    n == s@.len(),
                    out@.len() == i,
                    forall|j: int| 0 <= j < i ==> #[trigger] out@[j]@ == bin_sl(op, a@, bs[j]),
                    forall|j: int| 0 <= j < i ==> #[trigger] ok_sl(op, a@, bs[j]),
                decreases n - i,
            {
                proof {
                    assert(s@[i as int]@ == bs[i as int]);
                }
                match bin_scalar_with(op, a, &s[i]) {
                    Ok(v) => out.push(v),
                    Err(e) => {
                        proof {
                            assert(b@ == RepVal::Vector(bs));
                            assert(!ok_sl(op, a@, bs[i as int]));
                        }
                        return Err(e);
                    },
                }
                i += 1;
            }
            proof {
                assert(b@ == RepVal::Vector(bs));
                assert forall|j: int| 0 <= j < n implies rep_seq(out@)[j] == sl_map(
                    op,
                    a@,
                    bs,
                )[j] by {
                    assert(rep_seq(out@)[j] == rep_of(out@[j]));
                    assert(out@[j]@ == bin_sl(op, a@, bs[j]));
                }
                assert(rep_seq(out@) =~= sl_map(op, a@, bs));
            }
            Ok(TinValue::Vector(out))
        },
        TinValue::IntVector(s) => {
            proof {
                assert(b@ == RepVal::IntVector(s@));
            }
            match a {
                TinValue::Int(x) => {
                    proof {
                        assert(ok_sl(op, a@, b@) == (forall|j: int|
                            0 <= j < s@.len() ==> int_ok(op, a@->Int_0, #[trigger] s@[j])));
                    }
                    let n = s.len();
                    let mut out: Vec<i64> = Vec::new();
                    let mut i: usize = 0;
                    while i < n
                        invariant
                            0 <= i <= n,
                            n == s@.len(),
                            out@.len() == i,
                            forall|j: int| 0 <= j < i ==> out@[j] == int_bin(op, *x, #[trigger] s@[j]),
                            forall|j: int| 0 <= j < i ==> int_ok(op, *x, #[trigger] s@[j]),
                        decreases n - i,
                    {
                        match int_bin_exec(op, *x, s[i]) {
                            Ok(v) => out.push(v),
                            Err(e) => {
                                return Err(e);
                            },
                        }
                        i += 1;
                    }
                    proof {
                        assert(out@ =~= Seq::new(s@.len(), |j: int| int_bin(op, *x, s@[j])));
                    }
                    Ok(TinValue::IntVector(out))
                },
                _ => {
                    let r = bcast_float_ints(op, a, s);
                    proof {
                        assert(ok_sl(op, a@, b@));
                    }
                    r
                },
            }
        },
        TinValue::FloatVector(s) => {
            let r = bcast_scalar_floats(op, a, s);
            proof {
                assert(b@ == RepVal::FloatVector(s@));
                assert(ok_sl(op, a@, b@));
            }
            r
        },
    }
}

/// A float scalar broadcast over an integer vector (never fails).
fn bcast_float_ints(op: BinOp, a: &TinValue, s: &Vec<i64>) -> (r: Result<TinValue, TinError>)
    requires
        a is Float,
    ensures
        r is Ok,
        r->Ok_0@ == bin_sl(op, a@, RepVal::IntVector(s@)),
{
    let fa = match a {
        TinValue::Float(x) => *x,
        _ => 0,
    };
    let n = s.len();
    if is_flag(op) {
        let mut out: Vec<i64> = Vec::new();
        let mut i: usize = 0;
        while i < n
            invariant
                0 <= i <= n,
                n == s@.len(),
                a is Float && a@ == RepVal::Float(fa),
                out@.len() == i,
                forall|j: int|
                    0 <= j < i ==> out@[j] == scalar_rep(op, a@, RepVal::Int(#[trigger] s@[j]))->Int_0,
                is_flag_op(op),
            decreases n - i,
        {
            match scalar_bin_exec(op, a, &TinValue::Int(s[i])) {
                Ok(TinValue::Int(v)) => out.push(v),
                _ => {
                    return Err(TinError::Overflow);
                },
            }
            i += 1;
        }
        proof {
            assert(out@ =~= Seq::new(
                s@.len(),
                |j: int| scalar_rep(op, a@, RepVal::Int(s@[j]))->Int_0,
            ));
        }
        Ok(TinValue::IntVector(out))
    } else {
        let mut out: Vec<u64> = Vec::new();
        let mut i: usize = 0;
        while i < n
            invariant
                0 <= i <= n,
                n == s@.len(),
                a is Float && a@ == RepVal::Float(fa),
                out@.len() == i,
                forall|j: int| 0 <= j < i ==> out@[j] == fop_bits(op, fa, i2f_bits(#[trigger] s@[j])),
                !is_flag_op(op),
            decreases n - i,
        {
            out.push(fl_arith(op, fa, fl_of_int(s[i])));
            i += 1;
        }
        proof {
            assert(out@ =~= Seq::new(s@.len(), |j: int| fop_bits(op, fa, i2f_bits(s@[j]))));
        }
        Ok(TinValue::FloatVector(out))
    }
}

/// A scalar broadcast over a float vector (never fails).
fn bcast_scalar_floats(op: BinOp, a: &TinValue, s: &Vec<u64>) -> (r: Result<TinValue, TinError>)
    requires
        a.is_scalar(),
    ensures
        r is Ok,
        r->Ok_0@ == bin_sl(op, a@, RepVal::FloatVector(s@)),
{
    let n = s.len();
    if is_flag(op) {
        let mut out: Vec<i64> = Vec::new();
        let mut i: usize = 0;
        while i < n
            invariant
                0 <= i <= n,
                n == s@.len(),
                a.is_scalar(),
                out@.len() == i,
                forall|j: int|
                    0 <= j < i ==> out@[j] == scalar_rep(
                        op,
                        a@,
                        RepVal::Float(#[trigger] s@[j]),
                    )->Int_0,
                is_flag_op(op),
            decreases n - i,
        {
            match scalar_bin_exec(op, a, &TinValue::Float(s[i])) {
                Ok(TinValue::Int(v)) => out.push(v),
                _ => {
                    return Err(TinError::Overflow);
                },
            }
            i += 1;
        }
        proof {
            assert(out@ =~= Seq::new(
                s@.len(),
                |j: int| scalar_rep(op, a@, RepVal::Float(s@[j]))->Int_0,
            ));
            match a@ {
                RepVal::Int(x) => {
                    assert(bin_sl(op, a@, RepVal::FloatVector(s@)) == RepVal::IntVector(
                        Seq::new(
                            s@.len(),
                            |j: int| scalar_rep(op, a@, RepVal::Float(s@[j]))->Int_0,
                        ),
                    ));
                },
                RepVal::Float(x) => {
                    assert(Seq::new(s@.len(), |j: int| scalar_rep(op, a@, RepVal::Float(s@[j]))->Int_0)
                        =~= Seq::new(s@.len(), |j: int| fflag(op, x, s@[j])));
                },
                _ => {},
            }
        }
        Ok(TinValue::IntVector(out))
    } else {
        let fa = match a {
            TinValue::Int(x) => fl_of_int(*x),
            TinValue::Float(x) => *x,
            _ => 0,
        };
        let ghost fav = match a@ {
            RepVal::Int(x) => i2f_bits(x),
            RepVal::Float(x) => x,
            _ => 0,
        };
        let mut out: Vec<u64> = Vec::new();
        let mut i: usize = 0;
        while i < n
            invariant
                0 <= i <= n,
                n == s@.len(),
                fa == fav,
                out@.len() == i,
                forall|j: int| 0 <= j < i ==> out@[j] == fop_bits(op, fav, #[trigger] s@[j]),
                !is_flag_op(op),
            decreases n - i,
        {
            out.push(fl_arith(op, fa, s[i]));
            i += 1;
        }
        proof {
            assert(out@ =~= Seq::new(s@.len(), |j: int| fop_bits(op, fav, s@[j])));
        }
        Ok(TinValue::FloatVector(out))
    }
}


/// Integer vector against an integer scalar on the right.
fn bin_iv_int(op: BinOp, s: &Vec<i64>, y: i64) -> (r: Result<Vec<i64>, TinError>)
    ensures
        r is Ok <==> (forall|j: int| 0 <= j < s@.len() ==> int_ok(op, #[trigger] s@[j], y)),
        r is Ok ==> r->Ok_0@ == Seq::new(s@.len(), |j: int| int_bin(op, s@[j], y)),
        r is Err ==> (r->Err_0 == TinError::DivisionByZero || r->Err_0 == TinError::Overflow),
{
    let n = s.len();
    let mut out: Vec<i64> = Vec::new();
    let mut i: usize = 0;
    while i < n
        invariant
            0 <= i <= n,
            n == s@.len(),
            out@.len() == i,
            forall|j: int| 0 <= j < i ==> out@[j] == int_bin(op, #[trigger] s@[j], y),
            forall|j: int| 0 <= j < i ==> int_ok(op, #[trigger] s@[j], y),
        decreases n - i,
    {
        match int_bin_exec(op, s[i], y) {
            Ok(v) => out.push(v),
            Err(e) => {
                return Err(e);
            },
        }
        i += 1;
    }
    proof {
        assert(out@ =~= Seq::new(s@.len(), |j: int| int_bin(op, s@[j], y)));
    }
    Ok(out)
}

/// Two integer vectors, elementwise over the common prefix.
fn bin_iv_iv(op: BinOp, s1: &Vec<i64>, s2: &Vec<i64>) -> (r: Result<Vec<i64>, TinError>)
    ensures
        r is Ok <==> (forall|j: int|
            0 <= j < min_len(s1@.len(), s2@.len()) ==> int_ok(op, #[trigger] s1@[j], s2@[j])),
        r is Ok ==> r->Ok_0@ == Seq::new(
            min_len(s1@.len(), s2@.len()),
            |j: int| int_bin(op, s1@[j], s2@[j]),
        ),
        r is Err ==> (r->Err_0 == TinError::DivisionByZero || r->Err_0 == TinError::Overflow),
{
    let n = if s1.len() <= s2.len() {
        s1.len()
    } else {
        s2.len()
    };
    let mut out: Vec<i64> = Vec::new();
    let mut i: usize = 0;
    while i < n
        invariant
            0 <= i <= n,
            n == min_len(s1@.len(), s2@.len()),
            out@.len() == i,
            forall|j: int| 0 <= j < i ==> out@[j] == int_bin(op, #[trigger] s1@[j], s2@[j]),
            forall|j: int| 0 <= j < i ==> int_ok(op, #[trigger] s1@[j], s2@[j]),
        decreases n - i,
    {
        match int_bin_exec(op, s1[i], s2[i]) {
            Ok(v) => out.push(v),
            Err(e) => {
                return Err(e);
            },
        }
        i += 1;
    }
    proof {
        assert(out@ =~= Seq::new(
            min_len(s1@.len(), s2@.len()),
            |j: int| int_bin(op, s1@[j], s2@[j]),
        ));
    }
    Ok(out)
}

/// Integer vector against a float scalar on the right (never fails).
fn bin_iv_float(op: BinOp, s: &Vec<i64>, b: &TinValue) -> (r: TinValue)
    requires
        b is Float,
    ensures
        r@ == bin_rep(op, RepVal::IntVector(s@), b@),
{
    let fy = match b {
        TinValue::Float(y) => *y,
        _ => 0,
    };
    let n = s.len();
    if is_flag(op) {
        let mut out: Vec<i64> = Vec::new();
        let mut i: usize = 0;
        while i < n
            invariant
                0 <= i <= n,
                n == s@.len(),
                b is Float && b@ == RepVal::Float(fy),
                out@.len() == i,
                forall|j: int|
                    0 <= j < i ==> out@[j] == scalar_rep(
                        op,
                        RepVal::Int(#[trigger] s@[j]),
                        b@,
                    )->Int_0,
                is_flag_op(op),
            decreases n - i,
        {
            match scalar_bin_exec(op, &TinValue::Int(s[i]), b) {
                Ok(TinValue::Int(v)) => out.push(v),
                _ => {
                    return TinValue::Int(0);
                },
            }
            i += 1;
        }
        proof {
            assert(out@ =~= Seq::new(
                s@.len(),
                |j: int| scalar_rep(op, RepVal::Int(s@[j]), b@)->Int_0,
            ));
        }
        TinValue::IntVector(out)
    } else {
        let mut out: Vec<u64> = Vec::new();
        let mut i: usize = 0;
        while i < n
            invariant
                0 <= i <= n,
                n == s@.len(),
                b is Float && b@ == RepVal::Float(fy),
                out@.len() == i,
                forall|j: int| 0 <= j < i ==> out@[j] == fop_bits(op, i2f_bits(#[trigger] s@[j]), fy),
                !is_flag_op(op),
            decreases n - i,
        {
            out.push(fl_arith(op, fl_of_int(s[i]), fy));
            i += 1;
        }
        proof {
            assert(out@ =~= Seq::new(s@.len(), |j: int| fop_bits(op, i2f_bits(s@[j]), fy)));
        }
        TinValue::FloatVector(out)
    }
}

/// Float vector against an integer scalar on the right (never fails).
fn bin_fv_int(op: BinOp, s: &Vec<u64>, b: &TinValue) -> (r: TinValue)
    requires
        b is Int,
    ensures
        r@ == bin_rep(op, RepVal::FloatVector(s@), b@),
{
    let n = s.len();
    if is_flag(op) {
        let mut out: Vec<i64> = Vec::new();
        let mut i: usize = 0;
        while i < n
            invariant
                0 <= i <= n,
                n == s@.len(),
                b is Int,
                out@.len() == i,
                forall|j: int|
                    0 <= j < i ==> out@[j] == scalar_rep(
                        op,
                        RepVal::Float(#[trigger] s@[j]),
                        b@,
                    )->Int_0,
                is_flag_op(op),
            decreases n - i,
        {
            match scalar_bin_exec(op, &TinValue::Float(s[i]), b) {
                Ok(TinValue::Int(v)) => out.push(v),
                _ => {
                    return TinValue::Int(0);
                },
            }
            i += 1;
        }
        proof {
            assert(out@ =~= Seq::new(
                s@.len(),
                |j: int| scalar_rep(op, RepVal::Float(s@[j]), b@)->Int_0,
            ));
        }
        TinValue::IntVector(out)
    } else {
        let iy = match b {
            TinValue::Int(y) => *y,
            _ => 0,
        };
        let fy = fl_of_int(iy);
        let mut out: Vec<u64> = Vec::new();
        let mut i: usize = 0;
        while i < n
            invariant
                0 <= i <= n,
                n == s@.len(),
                b is Int && b@ == RepVal::Int(iy),
                fy == i2f_bits(iy),
                out@.len() == i,
                forall|j: int| 0 <= j < i ==> out@[j] == fop_bits(op, #[trigger] s@[j], fy),
                !is_flag_op(op),
            decreases n - i,
        {
            out.push(fl_arith(op, s[i], fy));
            i += 1;
        }
        proof {
            assert(out@ =~= Seq::new(s@.len(), |j: int| fop_bits(op, s@[j], i2f_bits(iy))));
        }
        TinValue::FloatVector(out)
    }
}

/// Float vector against a float scalar on the right (never fails).
fn bin_fv_float(op: BinOp, s: &Vec<u64>, y: u64) -> (r: TinValue)
    ensures
        r@ == bin_rep(op, RepVal::FloatVector(s@), RepVal::Float(y)),
{
    let n = s.len();
    if is_flag(op) {
        let mut out: Vec<i64> = Vec::new();
        let mut i: usize = 0;
        while i < n
            invariant
                0 <= i <= n,
                n == s@.len(),
                out@.len() == i,
                forall|j: int| 0 <= j < i ==> out@[j] == fflag(op, #[trigger] s@[j], y),
                is_flag_op(op),
            decreases n - i,
        {
            out.push(fl_flag_exec(op, s[i], y));
            i += 1;
        }
        proof {
            assert(out@ =~= Seq::new(s@.len(), |j: int| fflag(op, s@[j], y)));
        }
        TinValue::IntVector(out)
    } else {
        let mut out: Vec<u64> = Vec::new();
        let mut i: usize = 0;
        while i < n
            invariant
                0 <= i <= n,
                n == s@.len(),
                out@.len() == i,
                forall|j: int| 0 <= j < i ==> out@[j] == fop_bits(op, #[trigger] s@[j], y),
                !is_flag_op(op),
            decreases n - i,
        {
            out.push(fl_arith(op, s[i], y));
            i += 1;
        }
        proof {
            assert(out@ =~= Seq::new(s@.len(), |j: int| fop_bits(op, s@[j], y)));
        }
        TinValue::FloatVector(out)
    }
}

/// Two float vectors, elementwise over the common prefix (never fails).
fn bin_fv_fv(op: BinOp, s1: &Vec<u64>, s2: &Vec<u64>) -> (r: TinValue)
    ensures
        r@ == bin_rep(op, RepVal::FloatVector(s1@), RepVal::FloatVector(s2@)),
{
    let n = if s1.len() <= s2.len() {
        s1.len()
    } else {
        s2.len()
    };
    if is_flag(op) {
        let mut out: Vec<i64> = Vec::new();
        let mut i: usize = 0;
        while i < n
            invariant
                0 <= i <= n,
                n == min_len(s1@.len(), s2@.len()),
                out@.len() == i,
                forall|j: int| 0 <= j < i ==> out@[j] == fflag(op, #[trigger] s1@[j], s2@[j]),
                is_flag_op(op),
            decreases n - i,
        {
            out.push(fl_flag_exec(op, s1[i], s2[i]));
            i += 1;
        }
        proof {
            assert(out@ =~= Seq::new(
                min_len(s1@.len(), s2@.len()),
                |j: int| fflag(op, s1@[j], s2@[j]),
            ));
        }
        TinValue::IntVector(out)
    } else {
        let mut out: Vec<u64> = Vec::new();
        let mut i: usize = 0;
        while i < n
            invariant
                0 <= i <= n,
                n == min_len(s1@.len(), s2@.len()),
                out@.len() == i,
                forall|j: int| 0 <= j < i ==> out@[j] == fop_bits(op, #[trigger] s1@[j], s2@[j]),
                !is_flag_op(op),
            decreases n - i,
        {
            out.push(fl_arith(op, s1[i], s2[i]));
            i += 1;
        }
        proof {
            assert(out@ =~= Seq::new(
                min_len(s1@.len(), s2@.len()),
                |j: int| fop_bits(op, s1@[j], s2@[j]),
            ));
        }
        TinValue::FloatVector(out)
    }
}

/// Integer vector against a float vector, elementwise (never fails).
fn bin_iv_fv(op: BinOp, s1: &Vec<i64>, s2: &Vec<u64>) -> (r: TinValue)
    ensures
        r@ == bin_rep(op, RepVal::IntVector(s1@), RepVal::FloatVector(s2@)),
{
    let n = if s1.len() <= s2.len() {
        s1.len()
    } else {
        s2.len()
    };
    if is_flag(op) {
        let mut out: Vec<i64> = Vec::new();
        let mut i: usize = 0;
        while i < n
            invariant
                0 <= i <= n,
                n == min_len(s1@.len(), s2@.len()),
                out@.len() == i,
                forall|j: int|
                    0 <= j < i ==> out@[j] == scalar_rep(
                        op,
                        RepVal::Int(#[trigger] s1@[j]),
                        RepVal::Float(s2@[j]),
                    )->Int_0,
                is_flag_op(op),
            decreases n - i,
        {
            match scalar_bin_exec(op, &TinValue::Int(s1[i]), &TinValue::Float(s2[i])) {
                Ok(TinValue::Int(v)) => out.push(v),
                _ => {
                    return TinValue::Int(0);
                },
            }
            i += 1;
        }
        proof {
            assert(out@ =~= Seq::new(
                min_len(s1@.len(), s2@.len()),
                |j: int| scalar_rep(op, RepVal::Int(s1@[j]), RepVal::Float(s2@[j]))->Int_0,
            ));
        }
        TinValue::IntVector(out)
    } else {
        let mut out: Vec<u64> = Vec::new();
        let mut i: usize = 0;
        while i < n
            invariant
                0 <= i <= n,
                n == min_len(s1@.len(), s2@.len()),
                out@.len() == i,
                forall|j: int|
                    0 <= j < i ==> out@[j] == fop_bits(op, i2f_bits(#[trigger] s1@[j]), s2@[j]),
                !is_flag_op(op),
            decreases n - i,
        {
            out.push(fl_arith(op, fl_of_int(s1[i]), s2[i]));
            i += 1;
        }
        proof {
            assert(out@ =~= Seq::new(
                min_len(s1@.len(), s2@.len()),
                |j: int| fop_bits(op, i2f_bits(s1@[j]), s2@[j]),
            ));
        }
        TinValue::FloatVector(out)
    }
}

/// Float vector against an integer vector, elementwise (never fails).
fn bin_fv_iv(op: BinOp, s1: &Vec<u64>, s2: &Vec<i64>) -> (r: TinValue)
    ensures
        r@ == bin_rep(op, RepVal::FloatVector(s1@), RepVal::IntVector(s2@)),
{
    let n = if s1.len() <= s2.len() {
        s1.len()
    } else {
        s2.len()
    };
    if is_flag(op) {
        let mut out: Vec<i64> = Vec::new();
        let mut i: usize = 0;
        while i < n
            invariant
                0 <= i <= n,
                n == min_len(s1@.len(), s2@.len()),
                out@.len() == i,
                forall|j: int|
                    0 <= j < i ==> out@[j] == scalar_rep(
                        op,
                        RepVal::Float(#[trigger] s1@[j]),
                        RepVal::Int(s2@[j]),
                    )->Int_0,
                is_flag_op(op),
            decreases n - i,
        {
            match scalar_bin_exec(op, &TinValue::Float(s1[i]), &TinValue::Int(s2[i])) {
                Ok(TinValue::Int(v)) => out.push(v),
                _ => {
                    return TinValue::Int(0);
                },
            }
            i += 1;
        }
        proof {
            assert(out@ =~= Seq::new(
                min_len(s1@.len(), s2@.len()),
                |j: int| scalar_rep(op, RepVal::Float(s1@[j]), RepVal::Int(s2@[j]))->Int_0,
            ));
        }
        TinValue::IntVector(out)
    } else {
        let mut out: Vec<u64> = Vec::new();
        let mut i: usize = 0;
        while i < n
            invariant
                0 <= i <= n,
                n == min_len(s1@.len(), s2@.len()),
                out@.len() == i,
                forall|j: int|
                    0 <= j < i ==> out@[j] == fop_bits(op, #[trigger] s1@[j], i2f_bits(s2@[j])),
                !is_flag_op(op),
            decreases n - i,
        {
            out.push(fl_arith(op, s1[i], fl_of_int(s2[i])));
            i += 1;
        }
        proof {
            assert(out@ =~= Seq::new(
                min_len(s1@.len(), s2@.len()),
                |j: int| fop_bits(op, s1@[j], i2f_bits(s2@[j])),
            ));
        }
        TinValue::FloatVector(out)
    }
}


/// Two general vectors, elementwise over the common prefix.
#[verifier::loop_isolation(false)]
fn bin_vec_vec(op: BinOp, s1: &Vec<TinValue>, s2: &Vec<TinValue>) -> (r: Result<
    TinValue,
    TinError,
>)
    ensures
        r is Ok <==> ok_zip(op, rep_seq(s1@), rep_seq(s2@)),
        r is Ok ==> r->Ok_0@ == RepVal::Vector(bin_zip(op, rep_seq(s1@), rep_seq(s2@))),
        r is Err ==> (r->Err_0 == TinError::DivisionByZero || r->Err_0 == TinError::Overflow),
    decreases *s1, 0int,
{
    broadcast use lemma_rep_seq, lemma_bin_zip, lemma_ok_zip;

    let ghost rs1 = rep_seq(s1@);
    let ghost rs2 = rep_seq(s2@);
    let n = if s1.len() <= s2.len() {
        s1.len()
    } else {
        s2.len()
    };
    let mut out: Vec<TinValue> = Vec::new();
    let mut i: usize = 0;
    while i < n
        invariant
            0 <= i <= n,
            n == min_len(rs1.len(), rs2.len()),
            out@.len() == i,
            forall|j: int| 0 <= j < i ==> #[trigger] out@[j]@ == bin_rep(op, rs1[j], rs2[j]),
            forall|j: int| 0 <= j < i ==> #[trigger] bin_ok(op, rs1[j], rs2[j]),
        decreases n - i,
    {
        proof {
            assert(s1@[i as int]@ == rs1[i as int]);
            assert(s2@[i as int]@ == rs2[i as int]);
        }
        match apply_bin(op, &s1[i], &s2[i]) {
            Ok(v) => out.push(v),
            Err(e) => {
                return Err(e);
            },
        }
        i += 1;
    }
    proof {
        assert forall|j: int| 0 <= j < n implies rep_seq(out@)[j] == bin_zip(op, rs1, rs2)[j] by {
            assert(rep_seq(out@)[j] == rep_of(out@[j]));
            assert(out@[j]@ == bin_rep(op, rs1[j], rs2[j]));
            assert(bin_zip(op, rs1, rs2)[j] == bin_rep(op, rs1[j], rs2[j]));
        }
        assert(rep_seq(out@) =~= bin_zip(op, rs1, rs2));
    }
    Ok(TinValue::Vector(out))
}

/// A general vector against an integer vector, elementwise.
#[verifier::loop_isolation(false)]
fn bin_vec_ints(op: BinOp, s1: &Vec<TinValue>, s2: &Vec<i64>) -> (r: Result<TinValue, TinError>)
    ensures
        r is Ok <==> ok_zip(op, rep_seq(s1@), ints_rep(s2@)),
        r is Ok ==> r->Ok_0@ == RepVal::Vector(bin_zip(op, rep_seq(s1@), ints_rep(s2@))),
        r is Err ==> (r->Err_0 == TinError::DivisionByZero || r->Err_0 == TinError::Overflow),
    decreases *s1, 0int,
{
    broadcast use lemma_rep_seq, lemma_bin_zip, lemma_ok_zip;

    let ghost rs1 = rep_seq(s1@);
    let ghost rs2 = ints_rep(s2@);
    let n = if s1.len() <= s2.len() {
        s1.len()
    } else {
        s2.len()
    };
    let mut out: Vec<TinValue> = Vec::new();
    let mut i: usize = 0;
    while i < n
        invariant
            0 <= i <= n,
            n == min_len(rs1.len(), rs2.len()),
            out@.len() == i,
            forall|j: int| 0 <= j < i ==> #[trigger] out@[j]@ == bin_rep(op, rs1[j], rs2[j]),
            forall|j: int| 0 <= j < i ==> #[trigger] bin_ok(op, rs1[j], rs2[j]),
        decreases n - i,
    {
        let t = TinValue::Int(s2[i]);
        proof {
            assert(s1@[i as int]@ == rs1[i as int]);
            assert(t@ == rs2[i as int]);
        }
        match apply_bin(op, &s1[i], &t) {
            Ok(v) => out.push(v),
            Err(e) => {
                return Err(e);
            },
        }
        i += 1;
    }
    proof {
        assert forall|j: int| 0 <= j < n implies rep_seq(out@)[j] == bin_zip(op, rs1, rs2)[j] by {
            assert(rep_seq(out@)[j] == rep_of(out@[j]));
            assert(out@[j]@ == bin_rep(op, rs1[j], rs2[j]));
            assert(bin_zip(op, rs1, rs2)[j] == bin_rep(op, rs1[j], rs2[j]));
        }
        assert(rep_seq(out@) =~= bin_zip(op, rs1, rs2));
    }
    Ok(TinValue::Vector(out))
}

/// A general vector against a float vector, elementwise.
#[verifier::loop_isolation(false)]
fn bin_vec_floats(op: BinOp, s1: &Vec<TinValue>, s2: &Vec<u64>) -> (r: Result<TinValue, TinError>)
    ensures
        r is Ok <==> ok_zip(op, rep_seq(s1@), floats_rep(s2@)),
        r is Ok ==> r->Ok_0@ == RepVal::Vector(bin_zip(op, rep_seq(s1@), floats_rep(s2@))),
        r is Err ==> (r->Err_0 == TinError::DivisionByZero || r->Err_0 == TinError::Overflow),
    decreases *s1, 0int,
{
    broadcast use lemma_rep_seq, lemma_bin_zip, lemma_ok_zip;

    let ghost rs1 = rep_seq(s1@);
    let ghost rs2 = floats_rep(s2@);
    let n = if s1.len() <= s2.len() {
        s1.len()
    } else {
        s2.len()
    };
    let mut out: Vec<TinValue> = Vec::new();
    let mut i: usize = 0;
    while i < n
        invariant
            0 <= i <= n,
            n == min_len(rs1.len(), rs2.len()),
            out@.len() == i,
            forall|j: int| 0 <= j < i ==> #[trigger] out@[j]@ == bin_rep(op, rs1[j], rs2[j]),
            forall|j: int| 0 <= j < i ==> #[trigger] bin_ok(op, rs1[j], rs2[j]),
        decreases n - i,
    {
        let t = TinValue::Float(s2[i]);
        proof {
            assert(s1@[i as int]@ == rs1[i as int]);
            assert(t@ == rs2[i as int]);
        }
        match apply_bin(op, &s1[i], &t) {
            Ok(v) => out.push(v),
            Err(e) => {
                return Err(e);
            },
        }
        i += 1;
    }
    proof {
        assert forall|j: int| 0 <= j < n implies rep_seq(out@)[j] == bin_zip(op, rs1, rs2)[j] by {
            assert(rep_seq(out@)[j] == rep_of(out@[j]));
            assert(out@[j]@ == bin_rep(op, rs1[j], rs2[j]));
            assert(bin_zip(op, rs1, rs2)[j] == bin_rep(op, rs1[j], rs2[j]));
        }
        assert(rep_seq(out@) =~= bin_zip(op, rs1, rs2));
    }
    Ok(TinValue::Vector(out))
}

/// A general vector against a scalar on the right, elementwise.
#[verifier::loop_isolation(false)]
fn bin_vec_scalar(op: BinOp, s1: &Vec<TinValue>, b: &TinValue) -> (r: Result<TinValue, TinError>)
    requires
        b.is_scalar(),
    ensures
        r is Ok <==> ok_map_r(op, rep_seq(s1@), b@),
        r is Ok ==> r->Ok_0@ == RepVal::Vector(bin_map_r(op, rep_seq(s1@), b@)),
        r is Err ==> (r->Err_0 == TinError::DivisionByZero || r->Err_0 == TinError::Overflow),
    decreases *s1, 0int,
{
    broadcast use lemma_rep_seq, lemma_bin_map_r, lemma_ok_map_r;

    let ghost rs1 = rep_seq(s1@);
    let n = s1.len();
    let mut out: Vec<TinValue> = Vec::new();
    let mut i: usize = 0;
    while i < n
        invariant
            0 <= i <= n,
            n == rs1.len(),
            out@.len() == i,
            forall|j: int| 0 <= j < i ==> #[trigger] out@[j]@ == bin_rep(op, rs1[j], b@),
            forall|j: int| 0 <= j < i ==> #[trigger] bin_ok(op, rs1[j], b@),
        decreases n - i,
    {
        proof {
            assert(s1@[i as int]@ == rs1[i as int]);
        }
        match apply_bin(op, &s1[i], b) {
            Ok(v) => out.push(v),
            Err(e) => {
                return Err(e);
            },
        }
        i += 1;
    }
    proof {
        assert forall|j: int| 0 <= j < n implies rep_seq(out@)[j] == bin_map_r(op, rs1, b@)[j] by {
            assert(rep_seq(out@)[j] == rep_of(out@[j]));
            assert(out@[j]@ == bin_rep(op, rs1[j], b@));
            assert(bin_map_r(op, rs1, b@)[j] == bin_rep(op, rs1[j], b@));
        }
        assert(rep_seq(out@) =~= bin_map_r(op, rs1, b@));
    }
    Ok(TinValue::Vector(out))
}

/// An integer vector against a general vector, elementwise.
#[verifier::loop_isolation(false)]
fn bin_ints_vec(op: BinOp, s1: &Vec<i64>, s2: &Vec<TinValue>) -> (r: Result<TinValue, TinError>)
    ensures
        r is Ok <==> ok_zip_iv(op, s1@, rep_seq(s2@)),
        r is Ok ==> r->Ok_0@ == RepVal::Vector(zip_iv(op, s1@, rep_seq(s2@))),
        r is Err ==> (r->Err_0 == TinError::DivisionByZero || r->Err_0 == TinError::Overflow),
{
    broadcast use lemma_rep_seq, lemma_zip_iv, lemma_ok_zip_iv;

    let ghost rs2 = rep_seq(s2@);
    let n = if s1.len() <= s2.len() {
        s1.len()
    } else {
        s2.len()
    };
    let mut out: Vec<TinValue> = Vec::new();
    let mut i: usize = 0;
    while i < n
        invariant
            0 <= i <= n,
            n == min_len(s1@.len(), rs2.len()),
            out@.len() == i,
            forall|j: int|
                0 <= j < i ==> #[trigger] out@[j]@ == bin_sl(op, RepVal::Int(s1@[j]), rs2[j]),
            forall|j: int| 0 <= j < i ==> #[trigger] ok_sl(op, RepVal::Int(s1@[j]), rs2[j]),
        decreases n - i,
    {
        let t = TinValue::Int(s1[i]);
        proof {
            assert(t@ == RepVal::Int(s1@[i as int]));
            assert(s2@[i as int]@ == rs2[i as int]);
        }
        match bin_scalar_with(op, &t, &s2[i]) {
            Ok(v) => out.push(v),
            Err(e) => {
                return Err(e);
            },
        }
        i += 1;
    }
    proof {
        assert forall|j: int| 0 <= j < n implies rep_seq(out@)[j] == zip_iv(op, s1@, rs2)[j] by {
            assert(rep_seq(out@)[j] == rep_of(out@[j]));
            assert(out@[j]@ == bin_sl(op, RepVal::Int(s1@[j]), rs2[j]));
            assert(zip_iv(op, s1@, rs2)[j] == bin_sl(op, RepVal::Int(s1@[j]), rs2[j]));
        }
        assert(rep_seq(out@) =~= zip_iv(op, s1@, rs2));
    }
    Ok(TinValue::Vector(out))
}

/// A float vector against a general vector, elementwise.
#[verifier::loop_isolation(false)]
fn bin_floats_vec(op: BinOp, s1: &Vec<u64>, s2: &Vec<TinValue>) -> (r: Result<TinValue, TinError>)
    ensures
        r is Ok <==> ok_zip_fv(op, s1@, rep_seq(s2@)),
        r is Ok ==> r->Ok_0@ == RepVal::Vector(zip_fv(op, s1@, rep_seq(s2@))),
        r is Err ==> (r->Err_0 == TinError::DivisionByZero || r->Err_0 == TinError::Overflow),
{
    broadcast use lemma_rep_seq, lemma_zip_fv, lemma_ok_zip_fv;

    let ghost rs2 = rep_seq(s2@);
    let n = if s1.len() <= s2.len() {
        s1.len()
    } else {
        s2.len()
    };
    let mut out: Vec<TinValue> = Vec::new();
    let mut i: usize = 0;
    while i < n
        invariant
            0 <= i <= n,
            n == min_len(s1@.len(), rs2.len()),
            out@.len() == i,
            forall|j: int|
                0 <= j < i ==> #[trigger] out@[j]@ == bin_sl(op, RepVal::Float(s1@[j]), rs2[j]),
            forall|j: int| 0 <= j < i ==> #[trigger] ok_sl(op, RepVal::Float(s1@[j]), rs2[j]),
        decreases n - i,
    {
        let t = TinValue::Float(s1[i]);
        proof {
            assert(t@ == RepVal::Float(s1@[i as int]));
            assert(s2@[i as int]@ == rs2[i as int]);
        }
        match bin_scalar_with(op, &t, &s2[i]) {
            Ok(v) => out.push(v),
            Err(e) => {
                return Err(e);
            },
        }
        i += 1;
    }
    proof {
        assert forall|j: int| 0 <= j < n implies rep_seq(out@)[j] == zip_fv(op, s1@, rs2)[j] by {
            assert(rep_seq(out@)[j] == rep_of(out@[j]));
            assert(out@[j]@ == bin_sl(op, RepVal::Float(s1@[j]), rs2[j]));
            assert(zip_fv(op, s1@, rs2)[j] == bin_sl(op, RepVal::Float(s1@[j]), rs2[j]));
        }
        assert(rep_seq(out@) =~= zip_fv(op, s1@, rs2));
    }
    Ok(TinValue::Vector(out))
}

/// The full binary rule, over every pairing of the five shapes: exactly
/// `bin_rep` where `bin_ok` holds, an error exactly where it does not.
pub fn apply_bin(op: BinOp, a: &TinValue, b: &TinValue) -> (r: Result<TinValue, TinError>)
    ensures
        r is Ok <==> bin_ok(op, a@, b@),
        r is Ok ==> r->Ok_0@ == bin_rep(op, a@, b@),
        r is Err ==> (r->Err_0 == TinError::DivisionByZero || r->Err_0 == TinError::Overflow),
    decreases *a, 1int,
{
    broadcast use lemma_rep_seq;

    match (a, b) {
        (TinValue::Int(_), _) => {
            proof {
                assert(bin_ok(op, a@, b@) == ok_sl(op, a@, b@));
                assert(bin_rep(op, a@, b@) == bin_sl(op, a@, b@));
            }
            bin_scalar_with(op, a, b)
        },
        (TinValue::Float(_), _) => {
            proof {
                assert(bin_ok(op, a@, b@) == ok_sl(op, a@, b@));
                assert(bin_rep(op, a@, b@) == bin_sl(op, a@, b@));
            }
            bin_scalar_with(op, a, b)
        },
        (TinValue::Vector(s1), TinValue::Vector(s2)) => {
            proof {
                assert(a@ == RepVal::Vector(rep_seq(s1@)));
                assert(b@ == RepVal::Vector(rep_seq(s2@)));
            }
            bin_vec_vec(op, s1, s2)
        },
        (TinValue::Vector(s1), TinValue::IntVector(s2)) => {
            proof {
                assert(a@ == RepVal::Vector(rep_seq(s1@)));
                assert(b@ == RepVal::IntVector(s2@));
            }
            bin_vec_ints(op, s1, s2)
        },
        (TinValue::Vector(s1), TinValue::FloatVector(s2)) => {
            proof {
                assert(a@ == RepVal::Vector(rep_seq(s1@)));
                assert(b@ == RepVal::FloatVector(s2@));
            }
            bin_vec_floats(op, s1, s2)
        },
        (TinValue::Vector(s1), _) => {
            proof {
                assert(a@ == RepVal::Vector(rep_seq(s1@)));
            }
            bin_vec_scalar(op, s1, b)
        },
        (TinValue::IntVector(s1), TinValue::Vector(s2)) => {
            proof {
                assert(a@ == RepVal::IntVector(s1@));
                assert(b@ == RepVal::Vector(rep_seq(s2@)));
            }
            bin_ints_vec(op, s1, s2)
        },
        (TinValue::FloatVector(s1), TinValue::Vector(s2)) => {
            proof {
                assert(a@ == RepVal::FloatVector(s1@));
                assert(b@ == RepVal::Vector(rep_seq(s2@)));
            }
            bin_floats_vec(op, s1, s2)
        },
        (TinValue::IntVector(s1), TinValue::Int(y)) => {
            match bin_iv_int(op, s1, *y) {
                Ok(v) => Ok(TinValue::IntVector(v)),
                Err(e) => Err(e),
            }
        },
        (TinValue::IntVector(s1), TinValue::IntVector(s2)) => {
            match bin_iv_iv(op, s1, s2) {
                Ok(v) => Ok(TinValue::IntVector(v)),
                Err(e) => Err(e),
            }
        },
        (TinValue::IntVector(s1), TinValue::Float(_)) => Ok(bin_iv_float(op, s1, b)),
        (TinValue::IntVector(s1), TinValue::FloatVector(s2)) => Ok(bin_iv_fv(op, s1, s2)),
        (TinValue::FloatVector(s1), TinValue::Int(_)) => Ok(bin_fv_int(op, s1, b)),
        (TinValue::FloatVector(s1), TinValue::Float(y)) => Ok(bin_fv_float(op, s1, *y)),
        (TinValue::FloatVector(s1), TinValue::FloatVector(s2)) => Ok(bin_fv_fv(op, s1, s2)),
        (TinValue::FloatVector(s1), TinValue::IntVector(s2)) => Ok(bin_fv_iv(op, s1, s2)),
    }
}


/// Whether a unary operation yields integers on every scalar.
pub open spec fn is_int_un(op: UnOp) -> bool {
    match op {
        UnOp::FloatCast => false,
        UnOp::Sqrt => false,
        _ => true,
    }
}

/// The unary rule on a scalar mirror.
pub open spec fn un_scalar(op: UnOp, r: RepVal) -> RepVal {
    match r {
        RepVal::Int(n) => match op {
            UnOp::Floor => RepVal::Int(n),
            UnOp::Ceil => RepVal::Int(n),
            UnOp::Truthy => RepVal::Int(flag(n != 0)),
            UnOp::Neg => RepVal::Int(flag(n == 0)),
            UnOp::FloatCast => RepVal::Float(i2f_bits(n)),
            UnOp::Sqrt => RepVal::Float(fsqrt_bits(i2f_bits(n))),
        },
        RepVal::Float(b) => match op {
            UnOp::Floor => RepVal::Int(ffloor_int(b)),
            UnOp::Ceil => RepVal::Int(fceil_int(b)),
            UnOp::Truthy => RepVal::Int(flag(truthy_bits(b))),
            UnOp::Neg => RepVal::Int(flag(!truthy_bits(b))),
            UnOp::FloatCast => RepVal::Float(b),
            UnOp::Sqrt => RepVal::Float(fsqrt_bits(b)),
        },
        _ => r,
    }
}

/// The full unary rule over mirrors: scalars directly, vectors
/// elementwise, homogeneous representations kept homogeneous.
pub open spec fn un_rep(op: UnOp, r: RepVal) -> RepVal
    decreases r, 1int,
{
    match r {
        RepVal::Vector(s) => RepVal::Vector(un_map(op, s)),
        RepVal::IntVector(s) => {
            if is_int_un(op) {
                RepVal::IntVector(Seq::new(s.len(), |i: int| un_scalar(op, RepVal::Int(s[i]))->Int_0))
            } else {
                RepVal::FloatVector(
                    Seq::new(s.len(), |i: int| un_scalar(op, RepVal::Int(s[i]))->Float_0),
                )
            }
        },
        RepVal::FloatVector(s) => {
            if is_int_un(op) {
                RepVal::IntVector(
                    Seq::new(s.len(), |i: int| un_scalar(op, RepVal::Float(s[i]))->Int_0),
                )
            } else {
                RepVal::FloatVector(
                    Seq::new(s.len(), |i: int| un_scalar(op, RepVal::Float(s[i]))->Float_0),
                )
            }
        },
        _ => un_scalar(op, r),
    }
}

/// The unary rule over a sequence of mirrors, elementwise.
pub open spec fn un_map(op: UnOp, s: Seq<RepVal>) -> Seq<RepVal>
    decreases s, 0int,
{
    if s.len() == 0 {
        Seq::empty()
    } else {
        seq![un_rep(op, s[0])] + un_map(op, s.drop_first())
    }
}

/// `un_map` maps elementwise.
pub broadcast proof fn lemma_un_map(op: UnOp, s: Seq<RepVal>)
    ensures
        (#[trigger] un_map(op, s)).len() == s.len(),
        forall|i: int| 0 <= i < s.len() ==> un_map(op, s)[i] == un_rep(op, s[i]),
    decreases s.len(),
{
    if s.len() > 0 {
        lemma_un_map(op, s.drop_first());
        assert forall|i: int| 0 <= i < s.len() implies un_map(op, s)[i] == un_rep(op, s[i]) by {
            if i > 0 {
                assert(s.drop_first()[i - 1] == s[i]);
            }
        }
    }
}

/// Whether a unary operation yields integers on every scalar.
pub fn is_int_un_exec(op: UnOp) -> (r: bool)
    ensures
        r == is_int_un(op),
{
    match op {
        UnOp::FloatCast => false,
        UnOp::Sqrt => false,
        _ => true,
    }
}

/// The unary rule on a scalar value.
fn un_scalar_exec(op: UnOp, v: &TinValue) -> (r: TinValue)
    requires
        v.is_scalar(),
    ensures
        r@ == un_scalar(op, v@),
{
    match v {
        TinValue::Int(n) => match op {
            UnOp::Floor => TinValue::Int(*n),
            UnOp::Ceil => TinValue::Int(*n),
            UnOp::Truthy => TinValue::Int(
                if *n != 0 {
                    1
                } else {
                    0
                },
            ),
            UnOp::Neg => TinValue::Int(
                if *n == 0 {
                    1
                } else {
                    0
                },
            ),
            UnOp::FloatCast => TinValue::Float(fl_of_int(*n)),
            UnOp::Sqrt => TinValue::Float(fl_sqrt(fl_of_int(*n))),
        },
        TinValue::Float(b) => match op {
            UnOp::Floor => TinValue::Int(fl_floor_int(*b)),
            UnOp::Ceil => TinValue::Int(fl_ceil_int(*b)),
            UnOp::Truthy => TinValue::Int(
                if (*b & 0x7fff_ffff_ffff_ffff) != 0 {
                    1
                } else {
                    0
                },
            ),
            UnOp::Neg => TinValue::Int(
                if (*b & 0x7fff_ffff_ffff_ffff) == 0 {
                    1
                } else {
                    0
                },
            ),
            UnOp::FloatCast => TinValue::Float(*b),
            UnOp::Sqrt => TinValue::Float(fl_sqrt(*b)),
        },
        _ => TinValue::Int(0),
    }
}

/// A general vector under a unary operation, elementwise.
#[verifier::loop_isolation(false)]
fn un_vec(op: UnOp, s: &Vec<TinValue>) -> (r: TinValue)
    ensures
        r@ == RepVal::Vector(un_map(op, rep_seq(s@))),
    decreases *s, 0int,
{
    broadcast use lemma_rep_seq, lemma_un_map;

    let ghost rs = rep_seq(s@);
    let n = s.len();
    let mut out: Vec<TinValue> = Vec::new();
    let mut i: usize = 0;
    while i < n
        invariant
            0 <= i <= n,
            n == rs.len(),
            out@.len() == i,
            forall|j: int| 0 <= j < i ==> #[trigger] out@[j]@ == un_rep(op, rs[j]),
        decreases n - i,
    {
        proof {
            assert(s@[i as int]@ == rs[i as int]);
        }
        let v = apply_un(op, &s[i]);
        out.push(v);
        i += 1;
    }
    proof {
        assert forall|j: int| 0 <= j < n implies rep_seq(out@)[j] == un_map(op, rs)[j] by {
            assert(rep_seq(out@)[j] == rep_of(out@[j]));
            assert(out@[j]@ == un_rep(op, rs[j]));
            assert(un_map(op, rs)[j] == un_rep(op, rs[j]));
        }
        assert(rep_seq(out@) =~= un_map(op, rs));
    }
    TinValue::Vector(out)
}

/// The full unary rule over every shape: exactly `un_rep` (total).
#[verifier::loop_isolation(false)]
pub fn apply_un(op: UnOp, v: &TinValue) -> (r: TinValue)
    ensures
        r@ == un_rep(op, v@),
    decreases *v, 1int,
{
    broadcast use lemma_rep_seq;

    match v {
        TinValue::Int(_) => un_scalar_exec(op, v),
        TinValue::Float(_) => un_scalar_exec(op, v),
        TinValue::Vector(s) => {
            proof {
                assert(v@ == RepVal::Vector(rep_seq(s@)));
            }
            un_vec(op, s)
        },
        TinValue::IntVector(s) => {
            let n = s.len();
            if is_int_un_exec(op) {
                let mut out: Vec<i64> = Vec::new();
                let mut i: usize = 0;
                while i < n
                    invariant
                        0 <= i <= n,
                        n == s@.len(),
                        out@.len() == i,
                        is_int_un(op),
                        forall|j: int|
                            0 <= j < i ==> out@[j] == un_scalar(
                                op,
                                RepVal::Int(#[trigger] s@[j]),
                            )->Int_0,
                    decreases n - i,
                {
                    match un_scalar_exec(op, &TinValue::Int(s[i])) {
                        TinValue::Int(x) => out.push(x),
                        _ => {
                            return TinValue::Int(0);
                        },
                    }
                    i += 1;
                }
                proof {
                    assert(out@ =~= Seq::new(
                        s@.len(),
                        |j: int| un_scalar(op, RepVal::Int(s@[j]))->Int_0,
                    ));
                }
                TinValue::IntVector(out)
            } else {
                let mut out: Vec<u64> = Vec::new();
                let mut i: usize = 0;
                while i < n
                    invariant
                        0 <= i <= n,
                        n == s@.len(),
                        out@.len() == i,
                        !is_int_un(op),
                        forall|j: int|
                            0 <= j < i ==> out@[j] == un_scalar(
                                op,
                                RepVal::Int(#[trigger] s@[j]),
                            )->Float_0,
                    decreases n - i,
                {
                    match un_scalar_exec(op, &TinValue::Int(s[i])) {
                        TinValue::Float(x) => out.push(x),
                        _ => {
                            return TinValue::Int(0);
                        },
                    }
                    i += 1;
                }
                proof {
                    assert(out@ =~= Seq::new(
                        s@.len(),
                        |j: int| un_scalar(op, RepVal::Int(s@[j]))->Float_0,
                    ));
                }
                TinValue::FloatVector(out)
            }
        },
        TinValue::FloatVector(s) => {
            let n = s.len();
            if is_int_un_exec(op) {
                let mut out: Vec<i64> = Vec::new();
                let mut i: usize = 0;
                while i < n
                    invariant
                        0 <= i <= n,
                        n == s@.len(),
                        out@.len() == i,
                        is_int_un(op),
                        forall|j: int|
                            0 <= j < i ==> out@[j] == un_scalar(
                                op,
                                RepVal::Float(#[trigger] s@[j]),
                            )->Int_0,
                    decreases n - i,
                {
                    match un_scalar_exec(op, &TinValue::Float(s[i])) {
                        TinValue::Int(x) => out.push(x),
                        _ => {
                            return TinValue::Int(0);
                        },
                    }
                    i += 1;
                }
                proof {
                    assert(out@ =~= Seq::new(
                        s@.len(),
                        |j: int| un_scalar(op, RepVal::Float(s@[j]))->Int_0,
                    ));
                }
                TinValue::IntVector(out)
            } else {
                let mut out: Vec<u64> = Vec::new();
                let mut i: usize = 0;
                while i < n
                    invariant
                        0 <= i <= n,
                        n == s@.len(),
                        out@.len() == i,
                        !is_int_un(op),
                        forall|j: int|
                            0 <= j < i ==> out@[j] == un_scalar(
                                op,
                                RepVal::Float(#[trigger] s@[j]),
                            )->Float_0,
                    decreases n - i,
                {
                    match un_scalar_exec(op, &TinValue::Float(s[i])) {
                        TinValue::Float(x) => out.push(x),
                        _ => {
                            return TinValue::Int(0);
                        },
                    }
                    i += 1;
                }
                proof {
                    assert(out@ =~= Seq::new(
                        s@.len(),
                        |j: int| un_scalar(op, RepVal::Float(s@[j]))->Float_0,
                    ));
                }
                TinValue::FloatVector(out)
            }
        },
    }
}

} // verus!

