//! Total comparison of values: `cmp_value` computes `cmp_abs` exactly,
//! over every pairing of the five representations. Sorts, max, min and
//! the index-sort opcodes all order by this comparison.
use vstd::prelude::*;

use crate::fbits::fl_key_le;
use crate::fbits::fl_of_int;
use crate::value::abs;
use crate::value::abs_seq;
use crate::value::cmp_abs;
use crate::value::cmp_scalar_abs;
use crate::value::cmp_seq_at;
use crate::value::fkey;
use crate::value::lemma_abs_seq;
use crate::value::lemma_rep_seq;
use crate::value::rep_seq;
use crate::value::sgn;
use crate::value::AbsVal;
use crate::value::RepVal;
use crate::value::TinValue;

verus! {

broadcast use vstd::std_specs::vec::group_vec_axioms;

/// The numeric models of the elements of a vector-shaped value.
pub open spec fn abs_elems(v: TinValue) -> Seq<AbsVal> {
    match abs(v@) {
        AbsVal::Vect(s) => s,
        _ => Seq::empty(),
    }
}

/// Compares two float patterns by their order key.
pub fn fl_key_cmp(a: u64, b: u64) -> (r: i8)
    ensures
        r as int == sgn(fkey(a) - fkey(b)),
{
    if fl_key_le(a, b) {
        if fl_key_le(b, a) {
            0
        } else {
            -1
        }
    } else {
        1
    }
}

/// Scalar comparison; both arguments must be scalars.
fn cmp_scalar_value(a: &TinValue, b: &TinValue) -> (r: i8)
    requires
        a.is_scalar(),
        b.is_scalar(),
    ensures
        r as int == cmp_scalar_abs(a.am(), b.am()),
{
    match (a, b) {
        (TinValue::Int(x), TinValue::Int(y)) => {
            if *x < *y {
                -1
            } else if *x == *y {
                0
            } else {
                1
            }
        },
        (TinValue::Int(x), TinValue::Float(y)) => fl_key_cmp(fl_of_int(*x), *y),
        (TinValue::Float(x), TinValue::Int(y)) => fl_key_cmp(*x, fl_of_int(*y)),
        (TinValue::Float(x), TinValue::Float(y)) => fl_key_cmp(*x, *y),
        _ => 0,
    }
}

/// Whether this value is one of the vector representations.
pub fn is_vec(v: &TinValue) -> (r: bool)
    ensures
        r == v.is_vector_rep(),
{
    match v {
        TinValue::Int(_) => false,
        TinValue::Float(_) => false,
        _ => true,
    }
}

/// Length of a vector-shaped value.
pub fn vec_len(v: &TinValue) -> (r: usize)
    requires
        v.is_vector_rep(),
    ensures
        r == abs_elems(*v).len(),
{
    broadcast use lemma_rep_seq, lemma_abs_seq;

    match v {
        TinValue::Vector(x) => {
            proof {
                assert(v@ == RepVal::Vector(rep_seq(x@)));
                assert(abs_elems(*v) == abs_seq(rep_seq(x@)));
            }
            x.len()
        },
        TinValue::IntVector(x) => {
            proof {
                assert(v@ == RepVal::IntVector(x@));
            }
            x.len()
        },
        TinValue::FloatVector(x) => {
            proof {
                assert(v@ == RepVal::FloatVector(x@));
            }
            x.len()
        },
        _ => 0,
    }
}

/// Total comparison of two values, -1 / 0 / 1, matching `cmp_abs`.
#[verifier::loop_isolation(false)]
pub fn cmp_value(a: &TinValue, b: &TinValue) -> (r: i8)
    ensures
        r as int == cmp_abs(a.am(), b.am()),
    decreases *a, 1int,
{
    broadcast use lemma_rep_seq, lemma_abs_seq;

    let av = is_vec(a);
    let bv = is_vec(b);
    if !av && !bv {
        cmp_scalar_value(a, b)
    } else if av && !bv {
        1
    } else if !av && bv {
        -1
    } else {
        let ghost s1 = abs_elems(*a);
        let ghost s2 = abs_elems(*b);
        let n1 = vec_len(a);
        let n2 = vec_len(b);
        let n = if n1 <= n2 {
            n1
        } else {
            n2
        };
        let mut i: usize = 0;
        while i < n
            invariant
                0 <= i <= n,
                n1 == s1.len(),
                n2 == s2.len(),
                n == if n1 <= n2 {
                    n1
                } else {
                    n2
                },
                cmp_seq_at(s1, s2, 0) == cmp_seq_at(s1, s2, i as int),
            decreases n - i,
        {
            let c = vec_cmp_elem(a, b, i);
            if c != 0 {
                return c;
            }
            i += 1;
        }
        if n1 < n2 {
            -1
        } else if n1 == n2 {
            0
        } else {
            1
        }
    }
}

/// Comparison of the `i`-th elements of two vector-shaped values.
#[verifier::loop_isolation(false)]
fn vec_cmp_elem(x: &TinValue, y: &TinValue, i: usize) -> (r: i8)
    requires
        x.is_vector_rep(),
        y.is_vector_rep(),
        i < abs_elems(*x).len(),
        i < abs_elems(*y).len(),
    ensures
        r as int == cmp_abs(abs_elems(*x)[i as int], abs_elems(*y)[i as int]),
    decreases *x, 0int,
{
    broadcast use lemma_rep_seq, lemma_abs_seq;

    match (x, y) {
        (TinValue::Vector(u), TinValue::Vector(w)) => {
            proof {
                assert(abs_elems(*x) == abs_seq(rep_seq(u@)));
                assert(abs_elems(*y) == abs_seq(rep_seq(w@)));
                assert(abs_elems(*x)[i as int] == u@[i as int].am());
                assert(abs_elems(*y)[i as int] == w@[i as int].am());
            }
            cmp_value(&u[i], &w[i])
        },
        (TinValue::Vector(u), TinValue::IntVector(w)) => {
            proof {
                assert(abs_elems(*x) == abs_seq(rep_seq(u@)));
                assert(abs_elems(*x)[i as int] == u@[i as int].am());
                assert(abs_elems(*y) == Seq::new(w@.len(), |j: int| AbsVal::Int(w@[j])));
            }
            let e = &u[i];
            if is_vec(e) {
                1
            } else {
                let t = TinValue::Int(w[i]);
                cmp_scalar_value(e, &t)
            }
        },
        (TinValue::Vector(u), TinValue::FloatVector(w)) => {
            proof {
                assert(abs_elems(*x) == abs_seq(rep_seq(u@)));
                assert(abs_elems(*x)[i as int] == u@[i as int].am());
                assert(abs_elems(*y) == Seq::new(w@.len(), |j: int| AbsVal::Float(w@[j])));
            }
            let e = &u[i];
            if is_vec(e) {
                1
            } else {
                let t = TinValue::Float(w[i]);
                cmp_scalar_value(e, &t)
            }
        },
        (TinValue::IntVector(u), TinValue::Vector(w)) => {
            proof {
                assert(abs_elems(*y) == abs_seq(rep_seq(w@)));
                assert(abs_elems(*y)[i as int] == w@[i as int].am());
                assert(abs_elems(*x) == Seq::new(u@.len(), |j: int| AbsVal::Int(u@[j])));
            }
            let e = &w[i];
            if is_vec(e) {
                -1
            } else {
                let t = TinValue::Int(u[i]);
                cmp_scalar_value(&t, e)
            }
        },
        (TinValue::FloatVector(u), TinValue::Vector(w)) => {
            proof {
                assert(abs_elems(*y) == abs_seq(rep_seq(w@)));
                assert(abs_elems(*y)[i as int] == w@[i as int].am());
                assert(abs_elems(*x) == Seq::new(u@.len(), |j: int| AbsVal::Float(u@[j])));
            }
            let e = &w[i];
            if is_vec(e) {
                -1
            } else {
                let t = TinValue::Float(u[i]);
                cmp_scalar_value(&t, e)
            }
        },
        (TinValue::IntVector(u), TinValue::IntVector(w)) => {
            proof {
                assert(abs_elems(*x) == Seq::new(u@.len(), |j: int| AbsVal::Int(u@[j])));
                assert(abs_elems(*y) == Seq::new(w@.len(), |j: int| AbsVal::Int(w@[j])));
            }
            if u[i] < w[i] {
                -1
            } else if u[i] == w[i] {
                0
            } else {
                1
            }
        },
        (TinValue::IntVector(u), TinValue::FloatVector(w)) => {
            proof {
                assert(abs_elems(*x) == Seq::new(u@.len(), |j: int| AbsVal::Int(u@[j])));
                assert(abs_elems(*y) == Seq::new(w@.len(), |j: int| AbsVal::Float(w@[j])));
            }
            fl_key_cmp(fl_of_int(u[i]), w[i])
        },
        (TinValue::FloatVector(u), TinValue::IntVector(w)) => {
            proof {
                assert(abs_elems(*x) == Seq::new(u@.len(), |j: int| AbsVal::Float(u@[j])));
                assert(abs_elems(*y) == Seq::new(w@.len(), |j: int| AbsVal::Int(w@[j])));
            }
            fl_key_cmp(u[i], fl_of_int(w[i]))
        },
        (TinValue::FloatVector(u), TinValue::FloatVector(w)) => {
            proof {
                assert(abs_elems(*x) == Seq::new(u@.len(), |j: int| AbsVal::Float(u@[j])));
                assert(abs_elems(*y) == Seq::new(w@.len(), |j: int| AbsVal::Float(w@[j])));
            }
            fl_key_cmp(u[i], w[i])
        },
        _ => 0,
    }
}

} // verus!
