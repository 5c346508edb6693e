//! Trusted bridge to 64-bit float arithmetic.
//!
//! Verified code carries a float as its IEEE-754 bit pattern (`u64`).
//! Each operation below hands the patterns to the machine's double
//! arithmetic through `wide`'s bit-level constructors and returns the
//! result pattern; what comes back is pinned by an uninterpreted name,
//! so every caller speaks of exactly the machine's result.
//!
//! Comparisons, equality and truthiness of floats are *not* trusted:
//! they are verified integer logic over `fkey` in `value.rs`.
use vstd::prelude::*;

use crate::value::fkey;
use crate::value::fmag;
use crate::value::i2f_bits;
use crate::value::is_nan_bits;

verus! {

/// The bit pattern of the IEEE-754 sum of the doubles encoded by `a` and `b`.
pub uninterp spec fn fadd_bits(a: u64, b: u64) -> u64;

/// The bit pattern of the IEEE-754 difference of the encoded doubles.
pub uninterp spec fn fsub_bits(a: u64, b: u64) -> u64;

/// The bit pattern of the IEEE-754 product of the encoded doubles.
pub uninterp spec fn fmul_bits(a: u64, b: u64) -> u64;

/// The bit pattern of the IEEE-754 quotient of the encoded doubles.
pub uninterp spec fn fdiv_bits(a: u64, b: u64) -> u64;

/// The bit pattern of the remainder (`%`) of the encoded doubles.
pub uninterp spec fn frem_bits(a: u64, b: u64) -> u64;

/// The bit pattern of the platform's `powf` on the encoded doubles.
/// `powf` goes through the platform's math library, so this name is
/// pinned only per platform: on one machine equal patterns give equal
/// results, but another machine's library may round differently.
pub uninterp spec fn fpow_bits(a: u64, b: u64) -> u64;

/// The bit pattern of the IEEE-754 square root of the encoded double.
pub uninterp spec fn fsqrt_bits(a: u64) -> u64;

/// What `floor` of the encoded double, cast to `i64`, returns.
pub uninterp spec fn ffloor_int(a: u64) -> i64;

/// What `ceil` of the encoded double, cast to `i64`, returns.
pub uninterp spec fn fceil_int(a: u64) -> i64;

/// What truncation of the encoded double, cast to `i64`, returns.
pub uninterp spec fn ftrunc_int(a: u64) -> i64;

/// Relies on the machine's IEEE-754 double addition (`+` on `f64`);
/// patterns travel through `wide::f64x2`'s bit constructors. On non-NaN
/// operands the addition is commutative bit for bit; with a NaN operand
/// the returned payload may depend on the operand order, so nothing is
/// claimed there.
#[verifier::external_body]
pub fn fl_add(a: u64, b: u64) -> (r: u64)
    ensures
        r == fadd_bits(a, b),
        !is_nan_bits(a) && !is_nan_bits(b) ==> r == fadd_bits(b, a),
{
    let t = wide::f64x2::from_bits(wide::u64x2::new([a, b])).to_array();
    wide::f64x2::new([t[0] + t[1], t[1]]).to_bits().to_array()[0]
}

/// Relies on the machine's IEEE-754 double subtraction (`-` on `f64`).
#[verifier::external_body]
pub fn fl_sub(a: u64, b: u64) -> (r: u64)
    ensures
        r == fsub_bits(a, b),
{
    let t = wide::f64x2::from_bits(wide::u64x2::new([a, b])).to_array();
    wide::f64x2::new([t[0] - t[1], t[1]]).to_bits().to_array()[0]
}

/// Relies on the machine's IEEE-754 double multiplication (`*` on `f64`);
/// commutative bit for bit on non-NaN operands, with nothing claimed of
/// NaN payloads.
#[verifier::external_body]
pub fn fl_mul(a: u64, b: u64) -> (r: u64)
    ensures
        r == fmul_bits(a, b),
        !is_nan_bits(a) && !is_nan_bits(b) ==> r == fmul_bits(b, a),
{
    let t = wide::f64x2::from_bits(wide::u64x2::new([a, b])).to_array();
    wide::f64x2::new([t[0] * t[1], t[1]]).to_bits().to_array()[0]
}

/// Relies on the machine's IEEE-754 double division (`/` on `f64`); a zero
/// divisor gives an infinity or NaN, never a fault.
#[verifier::external_body]
pub fn fl_div(a: u64, b: u64) -> (r: u64)
    ensures
        r == fdiv_bits(a, b),
{
    let t = wide::f64x2::from_bits(wide::u64x2::new([a, b])).to_array();
    wide::f64x2::new([t[0] / t[1], t[1]]).to_bits().to_array()[0]
}

/// Relies on the machine's double remainder (`%` on `f64`).
#[verifier::external_body]
pub fn fl_rem(a: u64, b: u64) -> (r: u64)
    ensures
        r == frem_bits(a, b),
{
    let t = wide::f64x2::from_bits(wide::u64x2::new([a, b])).to_array();
    wide::f64x2::new([t[0] % t[1], t[1]]).to_bits().to_array()[0]
}

/// Relies on std's `f64::powf` (the platform's `pow`); deterministic on
/// one machine, not pinned across machines (see `fpow_bits`).
#[verifier::external_body]
pub fn fl_pow(a: u64, b: u64) -> (r: u64)
    ensures
        r == fpow_bits(a, b),
{
    let t = wide::f64x2::from_bits(wide::u64x2::new([a, b])).to_array();
    wide::f64x2::new([t[0].powf(t[1]), t[1]]).to_bits().to_array()[0]
}

/// Relies on std's `f64::sqrt` (IEEE-754 square root).
#[verifier::external_body]
pub fn fl_sqrt(a: u64) -> (r: u64)
    ensures
        r == fsqrt_bits(a),
{
    let t = wide::f64x2::from_bits(wide::u64x2::new([a, a])).to_array();
    wide::f64x2::new([t[0].sqrt(), t[1]]).to_bits().to_array()[0]
}

/// Relies on std's `f64::floor` and the saturating `as i64` cast.
#[verifier::external_body]
pub fn fl_floor_int(a: u64) -> (r: i64)
    ensures
        r == ffloor_int(a),
{
    let t = wide::f64x2::from_bits(wide::u64x2::new([a, a])).to_array();
    t[0].floor() as i64
}

/// Relies on std's `f64::ceil` and the saturating `as i64` cast.
#[verifier::external_body]
pub fn fl_ceil_int(a: u64) -> (r: i64)
    ensures
        r == fceil_int(a),
{
    let t = wide::f64x2::from_bits(wide::u64x2::new([a, a])).to_array();
    t[0].ceil() as i64
}

/// Relies on the saturating `as i64` cast of a double (truncation toward
/// zero).
#[verifier::external_body]
pub fn fl_trunc_int(a: u64) -> (r: i64)
    ensures
        r == ftrunc_int(a),
{
    let t = wide::f64x2::from_bits(wide::u64x2::new([a, a])).to_array();
    t[0] as i64
}

/// Relies on the primitive `i64` to `f64` cast (round to nearest, ties to
/// even), which never yields a NaN.
#[verifier::external_body]
pub fn fl_of_int(i: i64) -> (r: u64)
    ensures
        r == i2f_bits(i),
        !is_nan_bits(r),
{
    let mut t = wide::f64x2::ZERO.to_array();
    t[0] = i as _;
    wide::f64x2::new(t).to_bits().to_array()[0]
}

/// Relies on `rand::random` for `f64`: a fresh draw from the standard
/// unit interval, so the pattern is a nonnegative double below one.
#[verifier::external_body]
pub fn fl_rand_unit() -> (r: u64)
    ensures
        r < 0x3ff0_0000_0000_0000,
{
    let mut t = wide::f64x2::ZERO.to_array();
    t[0] = rand::random();
    wide::f64x2::new(t).to_bits().to_array()[0]
}

/// Whether the pattern encodes a NaN.
pub fn fl_is_nan(b: u64) -> (r: bool)
    ensures
        r == crate::value::is_nan_bits(b),
{
    (b & 0x7fff_ffff_ffff_ffff) > 0x7ff0_0000_0000_0000
}

/// Equality of the encoded doubles: key equality of non-NaN patterns
/// (IEEE `==`, with the two zeroes equal and NaN equal to nothing).
pub fn fl_eq(a: u64, b: u64) -> (r: bool)
    ensures
        r == crate::value::feq_bits(a, b),
{
    let ma = a & 0x7fff_ffff_ffff_ffff;
    let mb = b & 0x7fff_ffff_ffff_ffff;
    if ma > 0x7ff0_0000_0000_0000 || mb > 0x7ff0_0000_0000_0000 {
        return false;
    }
    fl_key_le(a, b) && fl_key_le(b, a)
}

/// `fkey(a) <= fkey(b)`: the total order on patterns that agrees with the
/// IEEE order on every non-NaN pair.
pub fn fl_key_le(a: u64, b: u64) -> (r: bool)
    ensures
        r == (fkey(a) <= fkey(b)),
{
    let sa = a >= 0x8000_0000_0000_0000;
    let sb = b >= 0x8000_0000_0000_0000;
    let ma = a & 0x7fff_ffff_ffff_ffff;
    let mb = b & 0x7fff_ffff_ffff_ffff;
    proof {
        assert(fmag(a) == a & 0x7fff_ffff_ffff_ffff);
        assert((a & 0x7fff_ffff_ffff_ffff) <= 0x7fff_ffff_ffff_ffff && (a
            >= 0x8000_0000_0000_0000 ==> (a & 0x7fff_ffff_ffff_ffff) == a
            - 0x8000_0000_0000_0000) && (a < 0x8000_0000_0000_0000 ==> (a
            & 0x7fff_ffff_ffff_ffff) == a)) by (bit_vector);
        assert((b & 0x7fff_ffff_ffff_ffff) <= 0x7fff_ffff_ffff_ffff && (b
            >= 0x8000_0000_0000_0000 ==> (b & 0x7fff_ffff_ffff_ffff) == b
            - 0x8000_0000_0000_0000) && (b < 0x8000_0000_0000_0000 ==> (b
            & 0x7fff_ffff_ffff_ffff) == b)) by (bit_vector);
    }
    if sa && sb {
        mb <= ma
    } else if sa {
        true
    } else if sb {
        ma == 0 && mb == 0
    } else {
        ma <= mb
    }
}

} // verus!
