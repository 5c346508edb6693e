//! Fixed-width accumulation kernels for homogeneous vectors: 4-lane
//! sums and products, a constant-factor layer under the sequential
//! semantics.
use vstd::prelude::*;

verus! {

/// The wrapping sum of a sequence of integers.
pub open spec fn wrap_sum(s: Seq<i64>) -> i64
    decreases s.len(),
{
    if s.len() == 0 {
        0
    } else {
        vstd::wrapping::i64_specs::wrapping_add(wrap_sum(s.drop_last()), s.last())
    }
}

/// The wrapping product of a sequence of integers.
pub open spec fn wrap_prod(s: Seq<i64>) -> i64
    decreases s.len(),
{
    if s.len() == 0 {
        1
    } else {
        vstd::wrapping::i64_specs::wrapping_mul(wrap_prod(s.drop_last()), s.last())
    }
}

/// What the 4-lane float sum kernel returns for these patterns:
/// complete lane groups accumulate lane-wise, then the lanes and the
/// remainder fold in one element at a time. That fixed association can
/// differ from a left-to-right fold in the last units of rounding, so
/// the whole result is named rather than equated to a fold.
pub uninterp spec fn simd_sum_f64(s: Seq<u64>) -> u64;

/// What the 4-lane float product kernel returns for these patterns,
/// under the same fixed association as the sum kernel.
pub uninterp spec fn simd_prod_f64(s: Seq<u64>) -> u64;

/// Relies on `wide::i64x4` lane addition, which wraps; since wrapping
/// addition is associative and commutative, the lane grouping returns
/// exactly the sequential wrapping sum.
#[verifier::external_body]
pub fn sum_i64(v: &Vec<i64>) -> (r: i64)
    ensures
        r == wrap_sum(v@),
{
    let simd = v.chunks_exact(4).map(|c| wide::i64x4::new([c[0], c[1], c[2], c[3]])).reduce(
        |acc, e| acc + e,
    ).unwrap_or(wide::i64x4::ZERO);
    let mut total: i64 = 0;
    for lane in simd.to_array() {
        total = total.wrapping_add(lane);
    }
    for x in v.chunks_exact(4).remainder() {
        total = total.wrapping_add(*x);
    }
    total
}

/// Relies on `wide::i64x4` lane multiplication, which wraps; since
/// wrapping multiplication is associative and commutative, the lane
/// grouping returns exactly the sequential wrapping product.
#[verifier::external_body]
pub fn prod_i64(v: &Vec<i64>) -> (r: i64)
    ensures
        r == wrap_prod(v@),
{
    let simd = v.chunks_exact(4).map(|c| wide::i64x4::new([c[0], c[1], c[2], c[3]])).reduce(
        |acc, e| acc * e,
    ).unwrap_or(wide::i64x4::ONE);
    let mut total: i64 = 1;
    for lane in simd.to_array() {
        total = total.wrapping_mul(lane);
    }
    for x in v.chunks_exact(4).remainder() {
        total = total.wrapping_mul(*x);
    }
    total
}

/// Relies on `wide::f64x4` lane addition over the encoded doubles; the
/// lane-group association is fixed, so the result is a function of the
/// patterns alone.
#[verifier::external_body]
pub fn sum_f64(v: &Vec<u64>) -> (r: u64)
    ensures
        r == simd_sum_f64(v@),
{
    let simd = v.chunks_exact(4).map(
        |c| wide::f64x4::from_bits(wide::u64x4::new([c[0], c[1], c[2], c[3]])),
    ).reduce(|acc, e| acc + e).unwrap_or(wide::f64x4::ZERO);
    let lanes = simd.to_array();
    let mut total = lanes[0] + lanes[1] + lanes[2] + lanes[3];
    for x in v.chunks_exact(4).remainder() {
        total = total + wide::f64x2::from_bits(wide::u64x2::new([*x, *x])).to_array()[0];
    }
    wide::f64x2::new([total, total]).to_bits().to_array()[0]
}

/// Relies on `wide::f64x4` lane multiplication over the encoded doubles;
/// the lane-group association is fixed, so the result is a function of
/// the patterns alone.
#[verifier::external_body]
pub fn prod_f64(v: &Vec<u64>) -> (r: u64)
    ensures
        r == simd_prod_f64(v@),
{
    let simd = v.chunks_exact(4).map(
        |c| wide::f64x4::from_bits(wide::u64x4::new([c[0], c[1], c[2], c[3]])),
    ).reduce(|acc, e| acc * e).unwrap_or(wide::f64x4::ONE);
    let lanes = simd.to_array();
    let mut total = lanes[0] * lanes[1] * lanes[2] * lanes[3];
    for x in v.chunks_exact(4).remainder() {
        total = total * wide::f64x2::from_bits(wide::u64x2::new([*x, *x])).to_array()[0];
    }
    wide::f64x2::new([total, total]).to_bits().to_array()[0]
}

} // verus!
