//! The arithmetic lattice: every numeric, relational and boolean binary
//! instruction, and every unary one, defined by one uniform rule applied
//! recursively over all pairings of the five value shapes.
//!
//! Scalars combine directly (an integer is cast to a float when the
//! other side is one, except for the inherently boolean results); a
//! scalar broadcasts across a vector; two vectors combine elementwise
//! over their common prefix. Homogeneous inputs keep a homogeneous
//! result wherever one exists.
use vstd::prelude::*;

use crate::fbits::fadd_bits;
use crate::fbits::fdiv_bits;
use crate::fbits::fmul_bits;
use crate::fbits::fpow_bits;
use crate::fbits::frem_bits;
use crate::fbits::fsub_bits;
use crate::value::flt_bits;
use crate::value::fle_bits;
use crate::value::i2f_bits;
use crate::value::truthy_bits;
use crate::value::RepVal;

verus! {

broadcast use vstd::std_specs::vec::group_vec_axioms;

/// A binary instruction of the lattice.
#[derive(Debug, Clone, Copy, PartialEq, Eq, Structural)]
pub enum BinOp {
    Add,
    Sub,
    Mul,
    Div,
    Mod,
    Pow,
    Lt,
    Leq,
    Gt,
    Geq,
    Or,
    And,
}

/// A unary instruction of the lattice.
#[derive(Debug, Clone, Copy, PartialEq, Eq, Structural)]
pub enum UnOp {
    Floor,
    Ceil,
    Truthy,
    Neg,
    FloatCast,
    Sqrt,
}

/// Whether the operation's result is inherently boolean (an integer flag,
/// whatever the operands).
pub open spec fn is_flag_op(op: BinOp) -> bool {
    match op {
        BinOp::Lt => true,
        BinOp::Leq => true,
        BinOp::Gt => true,
        BinOp::Geq => true,
        BinOp::Or => true,
        BinOp::And => true,
        _ => false,
    }
}

/// An integer flag as the language returns it.
pub open spec fn flag(b: bool) -> i64 {
    if b {
        1
    } else {
        0
    }
}

/// Integer-by-integer result: wrapping arithmetic, truncating division,
/// native remainder, wrapping power with the exponent truncated to 32
/// bits, and integer flags.
pub open spec fn int_bin(op: BinOp, x: i64, y: i64) -> i64 {
    match op {
        BinOp::Add => vstd::wrapping::i64_specs::wrapping_add(x, y),
        BinOp::Sub => vstd::wrapping::i64_specs::wrapping_sub(x, y),
        BinOp::Mul => vstd::wrapping::i64_specs::wrapping_mul(x, y),
        BinOp::Div => x.checked_div(y)->Some_0,
        BinOp::Mod => x.checked_rem(y)->Some_0,
        BinOp::Pow => pow_wrap(x, (y as u32) as nat),
        BinOp::Lt => flag(x < y),
        BinOp::Leq => flag(x <= y),
        BinOp::Gt => flag(x > y),
        BinOp::Geq => flag(x >= y),
        BinOp::Or => flag(x != 0 || y != 0),
        BinOp::And => flag(x != 0 && y != 0),
    }
}

/// When an integer-by-integer operation is defined: division and
/// remainder need a non-zero divisor and no overflow.
pub open spec fn int_ok(op: BinOp, x: i64, y: i64) -> bool {
    match op {
        BinOp::Div => x.checked_div(y) is Some,
        BinOp::Mod => x.checked_rem(y) is Some,
        _ => true,
    }
}

/// Wrapping integer power: `e` successive wrapping multiplications.
pub open spec fn pow_wrap(x: i64, e: nat) -> i64
    decreases e,
{
    if e == 0 {
        1
    } else {
        vstd::wrapping::i64_specs::wrapping_mul(x, pow_wrap(x, (e - 1) as nat))
    }
}

/// Float-by-float result of an arithmetic operation, as bits.
pub open spec fn fop_bits(op: BinOp, x: u64, y: u64) -> u64 {
    match op {
        BinOp::Add => fadd_bits(x, y),
        BinOp::Sub => fsub_bits(x, y),
        BinOp::Mul => fmul_bits(x, y),
        BinOp::Div => fdiv_bits(x, y),
        BinOp::Mod => frem_bits(x, y),
        BinOp::Pow => fpow_bits(x, y),
        _ => 0,
    }
}

/// Float-by-float result of a flag operation.
pub open spec fn fflag(op: BinOp, x: u64, y: u64) -> i64 {
    match op {
        BinOp::Lt => flag(flt_bits(x, y)),
        BinOp::Leq => flag(fle_bits(x, y)),
        BinOp::Gt => flag(flt_bits(y, x)),
        BinOp::Geq => flag(fle_bits(y, x)),
        BinOp::Or => flag(truthy_bits(x) || truthy_bits(y)),
        BinOp::And => flag(truthy_bits(x) && truthy_bits(y)),
        _ => 0,
    }
}

/// Scalar-by-scalar result over mirrors (both must be scalars): integers
/// stay integers, a float on either side promotes the other through the
/// cast, flags stay integers, and the boolean connectives read each side's
/// own truthiness without a cast.
pub open spec fn scalar_rep(op: BinOp, a: RepVal, b: RepVal) -> RepVal {
    match (a, b) {
        (RepVal::Int(x), RepVal::Int(y)) => RepVal::Int(int_bin(op, x, y)),
        (RepVal::Int(x), RepVal::Float(y)) => {
            if op == BinOp::Or {
                RepVal::Int(flag(x != 0 || truthy_bits(y)))
            } else if op == BinOp::And {
                RepVal::Int(flag(x != 0 && truthy_bits(y)))
            } else if is_flag_op(op) {
                RepVal::Int(fflag(op, i2f_bits(x), y))
            } else {
                RepVal::Float(fop_bits(op, i2f_bits(x), y))
            }
        },
        (RepVal::Float(x), RepVal::Int(y)) => {
            if op == BinOp::Or {
                RepVal::Int(flag(truthy_bits(x) || y != 0))
            } else if op == BinOp::And {
                RepVal::Int(flag(truthy_bits(x) && y != 0))
            } else if is_flag_op(op) {
                RepVal::Int(fflag(op, x, i2f_bits(y)))
            } else {
                RepVal::Float(fop_bits(op, x, i2f_bits(y)))
            }
        },
        (RepVal::Float(x), RepVal::Float(y)) => {
            if is_flag_op(op) {
                RepVal::Int(fflag(op, x, y))
            } else {
                RepVal::Float(fop_bits(op, x, y))
            }
        },
        _ => a,
    }
}

/// When a scalar-by-scalar operation is defined.
pub open spec fn scalar_ok(op: BinOp, a: RepVal, b: RepVal) -> bool {
    match (a, b) {
        (RepVal::Int(x), RepVal::Int(y)) => int_ok(op, x, y),
        _ => true,
    }
}

/// Whether a mirror is a scalar.
pub open spec fn rep_is_scalar(r: RepVal) -> bool {
    match r {
        RepVal::Int(_) => true,
        RepVal::Float(_) => true,
        _ => false,
    }
}

/// The elements of an integer mirror, reboxed.
pub open spec fn ints_rep(s: Seq<i64>) -> Seq<RepVal> {
    Seq::new(s.len(), |i: int| RepVal::Int(s[i]))
}

/// The elements of a float mirror, reboxed.
pub open spec fn floats_rep(s: Seq<u64>) -> Seq<RepVal> {
    Seq::new(s.len(), |i: int| RepVal::Float(s[i]))
}

/// The shorter of two lengths, the length every zip produces.
pub open spec fn min_len(a: nat, b: nat) -> nat {
    if a <= b {
        a
    } else {
        b
    }
}

/// Scalar-left broadcast: the full rule when the left operand is a
/// scalar. Self-contained so the diagonal pairings can reuse it.
pub open spec fn bin_sl(op: BinOp, a: RepVal, b: RepVal) -> RepVal
    decreases b, 0int,
{
    match (a, b) {
        (_, RepVal::Vector(s)) => RepVal::Vector(sl_map(op, a, s)),
        (RepVal::Int(x), RepVal::IntVector(s)) => RepVal::IntVector(
            Seq::new(s.len(), |i: int| int_bin(op, x, s[i])),
        ),
        (RepVal::Float(x), RepVal::IntVector(s)) => {
            if is_flag_op(op) {
                RepVal::IntVector(
                    Seq::new(s.len(), |i: int| scalar_rep(op, a, RepVal::Int(s[i]))->Int_0),
                )
            } else {
                RepVal::FloatVector(Seq::new(s.len(), |i: int| fop_bits(op, x, i2f_bits(s[i]))))
            }
        },
        (RepVal::Int(x), RepVal::FloatVector(s)) => {
            if is_flag_op(op) {
                RepVal::IntVector(
                    Seq::new(s.len(), |i: int| scalar_rep(op, a, RepVal::Float(s[i]))->Int_0),
                )
            } else {
                RepVal::FloatVector(Seq::new(s.len(), |i: int| fop_bits(op, i2f_bits(x), s[i])))
            }
        },
        (RepVal::Float(x), RepVal::FloatVector(s)) => {
            if is_flag_op(op) {
                RepVal::IntVector(Seq::new(s.len(), |i: int| fflag(op, x, s[i])))
            } else {
                RepVal::FloatVector(Seq::new(s.len(), |i: int| fop_bits(op, x, s[i])))
            }
        },
        _ => scalar_rep(op, a, b),
    }
}

/// A scalar broadcast from the left over a sequence of mirrors.
pub open spec fn sl_map(op: BinOp, a: RepVal, s: Seq<RepVal>) -> Seq<RepVal>
    decreases s, 1int,
{
    if s.len() == 0 {
        Seq::empty()
    } else {
        seq![bin_sl(op, a, s[0])] + sl_map(op, a, s.drop_first())
    }
}

/// Integer elements broadcast over general elements, pairwise.
pub open spec fn zip_iv(op: BinOp, s1: Seq<i64>, s2: Seq<RepVal>) -> Seq<RepVal>
    decreases s2,
{
    if s1.len() == 0 || s2.len() == 0 {
        Seq::empty()
    } else {
        seq![bin_sl(op, RepVal::Int(s1[0]), s2[0])] + zip_iv(op, s1.drop_first(), s2.drop_first())
    }
}

/// Float elements broadcast over general elements, pairwise.
pub open spec fn zip_fv(op: BinOp, s1: Seq<u64>, s2: Seq<RepVal>) -> Seq<RepVal>
    decreases s2,
{
    if s1.len() == 0 || s2.len() == 0 {
        Seq::empty()
    } else {
        seq![bin_sl(op, RepVal::Float(s1[0]), s2[0])] + zip_fv(
            op,
            s1.drop_first(),
            s2.drop_first(),
        )
    }
}

/// The full binary rule over mirrors. Defined wherever `bin_ok` holds.
pub open spec fn bin_rep(op: BinOp, a: RepVal, b: RepVal) -> RepVal
    decreases a, b, 1int,
{
    match (a, b) {
        (RepVal::Vector(s1), RepVal::Vector(s2)) => RepVal::Vector(bin_zip(op, s1, s2)),
        (RepVal::Vector(s1), RepVal::IntVector(s2)) => RepVal::Vector(
            bin_zip(op, s1, ints_rep(s2)),
        ),
        (RepVal::Vector(s1), RepVal::FloatVector(s2)) => RepVal::Vector(
            bin_zip(op, s1, floats_rep(s2)),
        ),
        (RepVal::Vector(s1), _) => RepVal::Vector(bin_map_r(op, s1, b)),
        (RepVal::IntVector(s1), RepVal::Vector(s2)) => RepVal::Vector(zip_iv(op, s1, s2)),
        (RepVal::FloatVector(s1), RepVal::Vector(s2)) => RepVal::Vector(zip_fv(op, s1, s2)),
        (RepVal::IntVector(s), RepVal::Int(y)) => RepVal::IntVector(
            Seq::new(s.len(), |i: int| int_bin(op, s[i], y)),
        ),
        (RepVal::IntVector(s1), RepVal::IntVector(s2)) => RepVal::IntVector(
            Seq::new(min_len(s1.len(), s2.len()), |i: int| int_bin(op, s1[i], s2[i])),
        ),
        (RepVal::IntVector(s), RepVal::Float(y)) => {
            if is_flag_op(op) {
                RepVal::IntVector(
                    Seq::new(s.len(), |i: int| scalar_rep(op, RepVal::Int(s[i]), b)->Int_0),
                )
            } else {
                RepVal::FloatVector(Seq::new(s.len(), |i: int| fop_bits(op, i2f_bits(s[i]), y)))
            }
        },
        (RepVal::FloatVector(s), RepVal::Int(y)) => {
            if is_flag_op(op) {
                RepVal::IntVector(
                    Seq::new(s.len(), |i: int| scalar_rep(op, RepVal::Float(s[i]), b)->Int_0),
                )
            } else {
                RepVal::FloatVector(Seq::new(s.len(), |i: int| fop_bits(op, s[i], i2f_bits(y))))
            }
        },
        (RepVal::FloatVector(s), RepVal::Float(y)) => {
            if is_flag_op(op) {
                RepVal::IntVector(Seq::new(s.len(), |i: int| fflag(op, s[i], y)))
            } else {
                RepVal::FloatVector(Seq::new(s.len(), |i: int| fop_bits(op, s[i], y)))
            }
        },
        (RepVal::FloatVector(s1), RepVal::FloatVector(s2)) => {
            if is_flag_op(op) {
                RepVal::IntVector(
                    Seq::new(min_len(s1.len(), s2.len()), |i: int| fflag(op, s1[i], s2[i])),
                )
            } else {
                RepVal::FloatVector(
                    Seq::new(min_len(s1.len(), s2.len()), |i: int| fop_bits(op, s1[i], s2[i])),
                )
            }
        },
        (RepVal::IntVector(s1), RepVal::FloatVector(s2)) => {
            if is_flag_op(op) {
                RepVal::IntVector(
                    Seq::new(
                        min_len(s1.len(), s2.len()),
                        |i: int| scalar_rep(op, RepVal::Int(s1[i]), RepVal::Float(s2[i]))->Int_0,
                    ),
                )
            } else {
                RepVal::FloatVector(
                    Seq::new(
                        min_len(s1.len(), s2.len()),
                        |i: int| fop_bits(op, i2f_bits(s1[i]), s2[i]),
                    ),
                )
            }
        },
        (RepVal::FloatVector(s1), RepVal::IntVector(s2)) => {
            if is_flag_op(op) {
                RepVal::IntVector(
                    Seq::new(
                        min_len(s1.len(), s2.len()),
                        |i: int| scalar_rep(op, RepVal::Float(s1[i]), RepVal::Int(s2[i]))->Int_0,
                    ),
                )
            } else {
                RepVal::FloatVector(
                    Seq::new(
                        min_len(s1.len(), s2.len()),
                        |i: int| fop_bits(op, s1[i], i2f_bits(s2[i])),
                    ),
                )
            }
        },
        _ => bin_sl(op, a, b),
    }
}

/// A scalar broadcast from the right over a sequence of mirrors.
pub open spec fn bin_map_r(op: BinOp, s: Seq<RepVal>, b: RepVal) -> Seq<RepVal>
    decreases s, b, 0int,
{
    if s.len() == 0 {
        Seq::empty()
    } else {
        seq![bin_rep(op, s[0], b)] + bin_map_r(op, s.drop_first(), b)
    }
}

/// An elementwise combination over the common prefix of two sequences.
pub open spec fn bin_zip(op: BinOp, s1: Seq<RepVal>, s2: Seq<RepVal>) -> Seq<RepVal>
    decreases s1, s2, 0int,
{
    if s1.len() == 0 || s2.len() == 0 {
        Seq::empty()
    } else {
        seq![bin_rep(op, s1[0], s2[0])] + bin_zip(op, s1.drop_first(), s2.drop_first())
    }
}

/// Definedness of a scalar-left broadcast.
pub open spec fn ok_sl(op: BinOp, a: RepVal, b: RepVal) -> bool
    decreases b, 0int,
{
    match (a, b) {
        (_, RepVal::Vector(s)) => ok_sl_map(op, a, s),
        (RepVal::Int(x), RepVal::IntVector(s)) => forall|i: int|
            0 <= i < s.len() ==> int_ok(op, x, #[trigger] s[i]),
        _ => scalar_ok(op, a, b),
    }
}

/// Definedness of a scalar-left broadcast over a sequence.
pub open spec fn ok_sl_map(op: BinOp, a: RepVal, s: Seq<RepVal>) -> bool
    decreases s, 1int,
{
    if s.len() == 0 {
        true
    } else {
        ok_sl(op, a, s[0]) && ok_sl_map(op, a, s.drop_first())
    }
}

/// Definedness of integer elements broadcast over general elements.
pub open spec fn ok_zip_iv(op: BinOp, s1: Seq<i64>, s2: Seq<RepVal>) -> bool
    decreases s2,
{
    if s1.len() == 0 || s2.len() == 0 {
        true
    } else {
        ok_sl(op, RepVal::Int(s1[0]), s2[0]) && ok_zip_iv(op, s1.drop_first(), s2.drop_first())
    }
}

/// Definedness of float elements broadcast over general elements.
pub open spec fn ok_zip_fv(op: BinOp, s1: Seq<u64>, s2: Seq<RepVal>) -> bool
    decreases s2,
{
    if s1.len() == 0 || s2.len() == 0 {
        true
    } else {
        ok_sl(op, RepVal::Float(s1[0]), s2[0]) && ok_zip_fv(op, s1.drop_first(), s2.drop_first())
    }
}

/// When the full binary rule is defined: every scalar combination it
/// reaches must be defined.
pub open spec fn bin_ok(op: BinOp, a: RepVal, b: RepVal) -> bool
    decreases a, b, 1int,
{
    match (a, b) {
        (RepVal::Vector(s1), RepVal::Vector(s2)) => ok_zip(op, s1, s2),
        (RepVal::Vector(s1), RepVal::IntVector(s2)) => ok_zip(op, s1, ints_rep(s2)),
        (RepVal::Vector(s1), RepVal::FloatVector(s2)) => ok_zip(op, s1, floats_rep(s2)),
        (RepVal::Vector(s1), _) => ok_map_r(op, s1, b),
        (RepVal::IntVector(s1), RepVal::Vector(s2)) => ok_zip_iv(op, s1, s2),
        (RepVal::FloatVector(s1), RepVal::Vector(s2)) => ok_zip_fv(op, s1, s2),
        (RepVal::IntVector(s), RepVal::Int(y)) => forall|i: int|
            0 <= i < s.len() ==> int_ok(op, #[trigger] s[i], y),
        (RepVal::IntVector(s1), RepVal::IntVector(s2)) => forall|i: int|
            0 <= i < min_len(s1.len(), s2.len()) ==> int_ok(op, #[trigger] s1[i], s2[i]),
        (RepVal::IntVector(_), _) => true,
        (RepVal::FloatVector(_), _) => true,
        _ => ok_sl(op, a, b),
    }
}

/// Definedness of a scalar broadcast from the right.
pub open spec fn ok_map_r(op: BinOp, s: Seq<RepVal>, b: RepVal) -> bool
    decreases s, b, 0int,
{
    if s.len() == 0 {
        true
    } else {
        bin_ok(op, s[0], b) && ok_map_r(op, s.drop_first(), b)
    }
}

/// Definedness of an elementwise combination over the common prefix.
pub open spec fn ok_zip(op: BinOp, s1: Seq<RepVal>, s2: Seq<RepVal>) -> bool
    decreases s1, s2, 0int,
{
    if s1.len() == 0 || s2.len() == 0 {
        true
    } else {
        bin_ok(op, s1[0], s2[0]) && ok_zip(op, s1.drop_first(), s2.drop_first())
    }
}

/// `sl_map` maps elementwise.
pub broadcast proof fn lemma_sl_map(op: BinOp, a: RepVal, s: Seq<RepVal>)
    ensures
        (#[trigger] sl_map(op, a, s)).len() == s.len(),
        forall|i: int| 0 <= i < s.len() ==> sl_map(op, a, s)[i] == bin_sl(op, a, s[i]),
    decreases s.len(),
{
    if s.len() > 0 {
        lemma_sl_map(op, a, s.drop_first());
        assert forall|i: int| 0 <= i < s.len() implies sl_map(op, a, s)[i] == bin_sl(
            op,
            a,
            s[i],
        ) by {
            if i > 0 {
                assert(s.drop_first()[i - 1] == s[i]);
            }
        }
    }
}

/// `zip_iv` combines the common prefix elementwise.
pub broadcast proof fn lemma_zip_iv(op: BinOp, s1: Seq<i64>, s2: Seq<RepVal>)
    ensures
        (#[trigger] zip_iv(op, s1, s2)).len() == min_len(s1.len(), s2.len()),
        forall|i: int|
            0 <= i < min_len(s1.len(), s2.len()) ==> zip_iv(op, s1, s2)[i] == bin_sl(
                op,
                RepVal::Int(s1[i]),
                s2[i],
            ),
    decreases s2.len(),
{
    if s1.len() > 0 && s2.len() > 0 {
        lemma_zip_iv(op, s1.drop_first(), s2.drop_first());
        assert forall|i: int| 0 <= i < min_len(s1.len(), s2.len()) implies zip_iv(op, s1, s2)[i]
            == bin_sl(op, RepVal::Int(s1[i]), s2[i]) by {
            if i > 0 {
                assert(s1.drop_first()[i - 1] == s1[i]);
                assert(s2.drop_first()[i - 1] == s2[i]);
            }
        }
    }
}

/// `zip_fv` combines the common prefix elementwise.
pub broadcast proof fn lemma_zip_fv(op: BinOp, s1: Seq<u64>, s2: Seq<RepVal>)
    ensures
        (#[trigger] zip_fv(op, s1, s2)).len() == min_len(s1.len(), s2.len()),
        forall|i: int|
            0 <= i < min_len(s1.len(), s2.len()) ==> zip_fv(op, s1, s2)[i] == bin_sl(
                op,
                RepVal::Float(s1[i]),
                s2[i],
            ),
    decreases s2.len(),
{
    if s1.len() > 0 && s2.len() > 0 {
        lemma_zip_fv(op, s1.drop_first(), s2.drop_first());
        assert forall|i: int| 0 <= i < min_len(s1.len(), s2.len()) implies zip_fv(op, s1, s2)[i]
            == bin_sl(op, RepVal::Float(s1[i]), s2[i]) by {
            if i > 0 {
                assert(s1.drop_first()[i - 1] == s1[i]);
                assert(s2.drop_first()[i - 1] == s2[i]);
            }
        }
    }
}

/// `bin_map_r` maps elementwise.
pub broadcast proof fn lemma_bin_map_r(op: BinOp, s: Seq<RepVal>, b: RepVal)
    ensures
        (#[trigger] bin_map_r(op, s, b)).len() == s.len(),
        forall|i: int| 0 <= i < s.len() ==> bin_map_r(op, s, b)[i] == bin_rep(op, s[i], b),
    decreases s.len(),
{
    if s.len() > 0 {
        lemma_bin_map_r(op, s.drop_first(), b);
        assert forall|i: int| 0 <= i < s.len() implies bin_map_r(op, s, b)[i] == bin_rep(
            op,
            s[i],
            b,
        ) by {
            if i > 0 {
                assert(s.drop_first()[i - 1] == s[i]);
            }
        }
    }
}

/// `bin_zip` combines the common prefix elementwise.
pub broadcast proof fn lemma_bin_zip(op: BinOp, s1: Seq<RepVal>, s2: Seq<RepVal>)
    ensures
        (#[trigger] bin_zip(op, s1, s2)).len() == min_len(s1.len(), s2.len()),
        forall|i: int|
            0 <= i < min_len(s1.len(), s2.len()) ==> bin_zip(op, s1, s2)[i] == bin_rep(
                op,
                s1[i],
                s2[i],
            ),
    decreases s1.len(),
{
    if s1.len() > 0 && s2.len() > 0 {
        lemma_bin_zip(op, s1.drop_first(), s2.drop_first());
        assert forall|i: int| 0 <= i < min_len(s1.len(), s2.len()) implies bin_zip(op, s1, s2)[i]
            == bin_rep(op, s1[i], s2[i]) by {
            if i > 0 {
                assert(s1.drop_first()[i - 1] == s1[i]);
                assert(s2.drop_first()[i - 1] == s2[i]);
            }
        }
    }
}

/// `ok_sl_map` holds exactly when every element combination is defined.
pub broadcast proof fn lemma_ok_sl_map(op: BinOp, a: RepVal, s: Seq<RepVal>)
    ensures
        #[trigger] ok_sl_map(op, a, s) <==> (forall|i: int|
            0 <= i < s.len() ==> ok_sl(op, a, #[trigger] s[i])),
    decreases s.len(),
{
    if s.len() > 0 {
        lemma_ok_sl_map(op, a, s.drop_first());
        if ok_sl_map(op, a, s) {
            assert forall|i: int| 0 <= i < s.len() implies ok_sl(op, a, #[trigger] s[i]) by {
                if i > 0 {
                    assert(s.drop_first()[i - 1] == s[i]);
                }
            }
        }
    }
}

/// `ok_zip_iv` holds exactly when every prefix combination is defined.
pub broadcast proof fn lemma_ok_zip_iv(op: BinOp, s1: Seq<i64>, s2: Seq<RepVal>)
    ensures
        #[trigger] ok_zip_iv(op, s1, s2) <==> (forall|i: int|
            0 <= i < min_len(s1.len(), s2.len()) ==> ok_sl(op, RepVal::Int(s1[i]), #[trigger] s2[i])),
    decreases s2.len(),
{
    if s1.len() > 0 && s2.len() > 0 {
        lemma_ok_zip_iv(op, s1.drop_first(), s2.drop_first());
        if ok_zip_iv(op, s1, s2) {
            assert forall|i: int| 0 <= i < min_len(s1.len(), s2.len()) implies ok_sl(
                op,
                RepVal::Int(s1[i]),
                #[trigger] s2[i],
            ) by {
                if i > 0 {
                    assert(s1.drop_first()[i - 1] == s1[i]);
                    assert(s2.drop_first()[i - 1] == s2[i]);
                }
            }
        }
    }
}

/// `ok_zip_fv` holds exactly when every prefix combination is defined.
pub broadcast proof fn lemma_ok_zip_fv(op: BinOp, s1: Seq<u64>, s2: Seq<RepVal>)
    ensures
        #[trigger] ok_zip_fv(op, s1, s2) <==> (forall|i: int|
            0 <= i < min_len(s1.len(), s2.len()) ==> ok_sl(
                op,
                RepVal::Float(s1[i]),
                #[trigger] s2[i],
            )),
    decreases s2.len(),
{
    if s1.len() > 0 && s2.len() > 0 {
        lemma_ok_zip_fv(op, s1.drop_first(), s2.drop_first());
        if ok_zip_fv(op, s1, s2) {
            assert forall|i: int| 0 <= i < min_len(s1.len(), s2.len()) implies ok_sl(
                op,
                RepVal::Float(s1[i]),
                #[trigger] s2[i],
            ) by {
                if i > 0 {
                    assert(s1.drop_first()[i - 1] == s1[i]);
                    assert(s2.drop_first()[i - 1] == s2[i]);
                }
            }
        }
    }
}

/// `ok_map_r` holds exactly when every element combination is defined.
pub broadcast proof fn lemma_ok_map_r(op: BinOp, s: Seq<RepVal>, b: RepVal)
    ensures
        #[trigger] ok_map_r(op, s, b) <==> (forall|i: int|
            0 <= i < s.len() ==> bin_ok(op, #[trigger] s[i], b)),
    decreases s.len(),
{
    if s.len() > 0 {
        lemma_ok_map_r(op, s.drop_first(), b);
        if ok_map_r(op, s, b) {
            assert forall|i: int| 0 <= i < s.len() implies bin_ok(op, #[trigger] s[i], b) by {
                if i > 0 {
                    assert(s.drop_first()[i - 1] == s[i]);
                }
            }
        }
    }
}

/// `ok_zip` holds exactly when every prefix combination is defined.
pub broadcast proof fn lemma_ok_zip(op: BinOp, s1: Seq<RepVal>, s2: Seq<RepVal>)
    ensures
        #[trigger] ok_zip(op, s1, s2) <==> (forall|i: int|
            0 <= i < min_len(s1.len(), s2.len()) ==> bin_ok(op, #[trigger] s1[i], s2[i])),
    decreases s1.len(),
{
    if s1.len() > 0 && s2.len() > 0 {
        lemma_ok_zip(op, s1.drop_first(), s2.drop_first());
        if ok_zip(op, s1, s2) {
            assert forall|i: int| 0 <= i < min_len(s1.len(), s2.len()) implies bin_ok(
                op,
                #[trigger] s1[i],
                s2[i],
            ) by {
                if i > 0 {
                    assert(s1.drop_first()[i - 1] == s1[i]);
                    assert(s2.drop_first()[i - 1] == s2[i]);
                }
            }
        }
    }
}

/// Every operation but integer division and remainder is defined on
/// every pair of shapes.
pub proof fn lemma_bin_ok_total(op: BinOp, a: RepVal, b: RepVal)
    requires
        op != BinOp::Div,
        op != BinOp::Mod,
    ensures
        bin_ok(op, a, b),
    decreases a, b, 1int,
{
    match (a, b) {
        (RepVal::Vector(s1), RepVal::Vector(s2)) => lemma_ok_zip_total(op, s1, s2),
        (RepVal::Vector(s1), RepVal::IntVector(s2)) => lemma_ok_zip_total(op, s1, ints_rep(s2)),
        (RepVal::Vector(s1), RepVal::FloatVector(s2)) => lemma_ok_zip_total(
            op,
            s1,
            floats_rep(s2),
        ),
        (RepVal::Vector(s1), _) => lemma_ok_map_r_total(op, s1, b),
        (RepVal::IntVector(s1), RepVal::Vector(s2)) => lemma_ok_zip_iv_total(op, s1, s2),
        (RepVal::FloatVector(s1), RepVal::Vector(s2)) => lemma_ok_zip_fv_total(op, s1, s2),
        _ => {
            if rep_is_scalar(a) {
                lemma_ok_sl_total(op, a, b);
            }
        },
    }
}

/// Scalar-left broadcasts of a non-dividing operation are defined.
pub proof fn lemma_ok_sl_total(op: BinOp, a: RepVal, b: RepVal)
    requires
        op != BinOp::Div,
        op != BinOp::Mod,
    ensures
        ok_sl(op, a, b),
    decreases b, 0int,
{
    match b {
        RepVal::Vector(s) => lemma_ok_sl_map_total(op, a, s),
        _ => {},
    }
}

/// Scalar-left broadcasts over a sequence are defined.
pub proof fn lemma_ok_sl_map_total(op: BinOp, a: RepVal, s: Seq<RepVal>)
    requires
        op != BinOp::Div,
        op != BinOp::Mod,
    ensures
        ok_sl_map(op, a, s),
    decreases s, 1int,
{
    if s.len() > 0 {
        lemma_ok_sl_total(op, a, s[0]);
        lemma_ok_sl_map_total(op, a, s.drop_first());
    }
}

/// Integer elements broadcast over general elements are defined.
pub proof fn lemma_ok_zip_iv_total(op: BinOp, s1: Seq<i64>, s2: Seq<RepVal>)
    requires
        op != BinOp::Div,
        op != BinOp::Mod,
    ensures
        ok_zip_iv(op, s1, s2),
    decreases s2,
{
    if s1.len() > 0 && s2.len() > 0 {
        lemma_ok_sl_total(op, RepVal::Int(s1[0]), s2[0]);
        lemma_ok_zip_iv_total(op, s1.drop_first(), s2.drop_first());
    }
}

/// Float elements broadcast over general elements are defined.
pub proof fn lemma_ok_zip_fv_total(op: BinOp, s1: Seq<u64>, s2: Seq<RepVal>)
    requires
        op != BinOp::Div,
        op != BinOp::Mod,
    ensures
        ok_zip_fv(op, s1, s2),
    decreases s2,
{
    if s1.len() > 0 && s2.len() > 0 {
        lemma_ok_sl_total(op, RepVal::Float(s1[0]), s2[0]);
        lemma_ok_zip_fv_total(op, s1.drop_first(), s2.drop_first());
    }
}

/// Right broadcasts of a non-dividing operation are defined.
pub proof fn lemma_ok_map_r_total(op: BinOp, s: Seq<RepVal>, b: RepVal)
    requires
        op != BinOp::Div,
        op != BinOp::Mod,
    ensures
        ok_map_r(op, s, b),
    decreases s, b, 0int,
{
    if s.len() > 0 {
        lemma_bin_ok_total(op, s[0], b);
        lemma_ok_map_r_total(op, s.drop_first(), b);
    }
}

/// Elementwise combination of a non-dividing operation is defined.
pub proof fn lemma_ok_zip_total(op: BinOp, s1: Seq<RepVal>, s2: Seq<RepVal>)
    requires
        op != BinOp::Div,
        op != BinOp::Mod,
    ensures
        ok_zip(op, s1, s2),
    decreases s1, s2, 0int,
{
    if s1.len() > 0 && s2.len() > 0 {
        lemma_bin_ok_total(op, s1[0], s2[0]);
        lemma_ok_zip_total(op, s1.drop_first(), s2.drop_first());
    }
}

} // verus!
