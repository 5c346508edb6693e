//! The data-parallel fast path: the pure eligibility predicate and the
//! trusted fan-out primitives. The fan-out never touches interpreter
//! state, only already-popped values, and each primitive's contract is
//! path-independent wherever the sequential semantics is deterministic.
use rayon::iter::IntoParallelRefIterator;
use rayon::iter::ParallelIterator;
use vstd::prelude::*;

use crate::arith::BinOp;
use crate::value::cmp_abs;
use crate::value::rep_seq;
use crate::value::truthy_abs;
use crate::value::RepVal;
use crate::value::TinValue;
use crate::simd::wrap_prod;
use crate::simd::wrap_sum;

verus! {

broadcast use vstd::std_specs::vec::group_vec_axioms;

/// The element count at and above which bulk work may fan out.
pub const PARALLEL_THRESHOLD: usize = 10000;

/// The fan-out policy: the togglable flag and the physical core probe,
/// fixed when an interpreter is built.
#[derive(Debug, Clone, Copy)]
pub struct ParallelPolicy {
    /// Whether fan-out is enabled at all.
    pub enabled: bool,
    /// The machine's physical core count.
    pub cores: usize,
}

impl ParallelPolicy {
    /// Whether a bulk operation over `limit` elements takes the parallel
    /// path: the flag, more than two physical cores, and the threshold.
    pub fn parallelizable(&self, limit: usize) -> (r: bool)
        ensures
            r == (self.enabled && self.cores > 2 && limit >= PARALLEL_THRESHOLD),
    {
        self.enabled && self.cores > 2 && limit >= PARALLEL_THRESHOLD
    }
}

/// Relies on `num_cpus::get_physical`, which returns at least one.
#[verifier::external_body]
pub fn physical_cores() -> (r: usize)
    ensures
        r >= 1,
{
    num_cpus::get_physical()
}

/// Relies on rayon's `par_iter().any` with the verified truthiness test:
/// true exactly when some element is truthy.
#[verifier::external_body]
pub fn par_any(v: &Vec<TinValue>) -> (r: bool)
    ensures
        r == (exists|i: int| 0 <= i < v@.len() && truthy_abs(#[trigger] v@[i].am())),
{
    v.par_iter().any(TinValue::truthy)
}

/// Relies on rayon's `par_iter().all` with the verified truthiness test:
/// true exactly when every element is truthy.
#[verifier::external_body]
pub fn par_all(v: &Vec<TinValue>) -> (r: bool)
    ensures
        r == (forall|i: int| 0 <= i < v@.len() ==> truthy_abs(#[trigger] v@[i].am())),
{
    v.par_iter().all(TinValue::truthy)
}

/// Whether some element of the sequence has the given mirror.
pub open spec fn contains_rep(s: Seq<TinValue>, x: RepVal) -> bool {
    exists|i: int| 0 <= i < s.len() && #[trigger] s[i]@ == x
}

/// Whether every mirrored element is an integer.
pub open spec fn all_ints(s: Seq<RepVal>) -> bool {
    forall|i: int| 0 <= i < s.len() ==> #[trigger] s[i] is Int
}

/// The integer payloads of a mirrored sequence.
pub open spec fn ints_of(s: Seq<RepVal>) -> Seq<i64> {
    Seq::new(s.len(), |i: int| s[i]->Int_0)
}

/// Relies on rayon's `reduce` with the verified addition: wrapping
/// addition on integers is associative and commutative with identity
/// zero, so on an all-integer vector the reduction tree returns exactly
/// the sequential wrapping sum. Of a mixed or float vector only some
/// grouping of the commutative reduction is returned.
#[verifier::external_body]
pub fn par_sum(v: &Vec<TinValue>) -> (r: TinValue)
    ensures
        all_ints(rep_seq(v@)) ==> r@ == RepVal::Int(wrap_sum(ints_of(rep_seq(v@)))),
{
    v.par_iter().map(crate::vector::clone_value).reduce(
        || TinValue::Int(0),
        |a, b| match crate::apply::apply_bin(BinOp::Add, &a, &b) {
            Ok(x) => x,
            Err(_) => TinValue::Int(0),
        },
    )
}

/// Relies on rayon's `reduce` with the verified multiplication: wrapping
/// multiplication on integers is associative and commutative with
/// identity one, so on an all-integer vector the reduction tree returns
/// exactly the sequential wrapping product.
#[verifier::external_body]
pub fn par_prod(v: &Vec<TinValue>) -> (r: TinValue)
    ensures
        all_ints(rep_seq(v@)) ==> r@ == RepVal::Int(wrap_prod(ints_of(rep_seq(v@)))),
{
    v.par_iter().map(crate::vector::clone_value).reduce(
        || TinValue::Int(1),
        |a, b| match crate::apply::apply_bin(BinOp::Mul, &a, &b) {
            Ok(x) => x,
            Err(_) => TinValue::Int(1),
        },
    )
}

/// Relies on rayon's `max_by` with the verified comparison: always some
/// element of the vector; where the comparison is a total preorder on
/// the content (`sort_safe`), the documented maximum, which no element
/// exceeds. On content where the comparison is intransitive (mixed
/// large integers and floats) only membership is claimed.
#[verifier::external_body]
pub fn par_max(v: &Vec<TinValue>) -> (r: TinValue)
    requires
        v@.len() > 0,
    ensures
        contains_rep(v@, r@),
        crate::sorts::sort_safe(v@) ==> forall|i: int|
            0 <= i < v@.len() ==> cmp_abs(r.am(), #[trigger] v@[i].am()) >= 0,
{
    let best = v.par_iter().max_by(
        |a, b| {
            let c = crate::order::cmp_value(a, b);
            if c < 0 {
                core::cmp::Ordering::Less
            } else if c == 0 {
                core::cmp::Ordering::Equal
            } else {
                core::cmp::Ordering::Greater
            }
        },
    ).unwrap();
    crate::vector::clone_value(best)
}

/// Relies on rayon's `min_by` with the verified comparison: always some
/// element; the documented minimum wherever the comparison is a total
/// preorder on the content (`sort_safe`).
#[verifier::external_body]
pub fn par_min(v: &Vec<TinValue>) -> (r: TinValue)
    requires
        v@.len() > 0,
    ensures
        contains_rep(v@, r@),
        crate::sorts::sort_safe(v@) ==> forall|i: int|
            0 <= i < v@.len() ==> cmp_abs(r.am(), #[trigger] v@[i].am()) <= 0,
{
    let best = v.par_iter().min_by(
        |a, b| {
            let c = crate::order::cmp_value(a, b);
            if c < 0 {
                core::cmp::Ordering::Less
            } else if c == 0 {
                core::cmp::Ordering::Equal
            } else {
                core::cmp::Ordering::Greater
            }
        },
    ).unwrap();
    crate::vector::clone_value(best)
}

} // verus!
