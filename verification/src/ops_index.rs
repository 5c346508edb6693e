//! Element access, elementwise pairing and windows: get and set (both
//! bounds-checked), gather-by-index, cartesian product, zip and the
//! sliding window.
use vstd::prelude::*;

use crate::arith::min_len;
use crate::errors::TinError;
use crate::ops_stack::rep_is_vec;
use crate::value::lemma_rep_seq;
use crate::value::rep_of;
use crate::value::rep_seq;
use crate::value::RepVal;
use crate::value::TinValue;
use crate::vector::clone_value;
use crate::vector::rep_elem;
use crate::vector::rep_len;

verus! {

broadcast use vstd::std_specs::vec::group_vec_axioms;

/// One element of a vector-shaped value, as a fresh value.
pub fn elem_of(v: &TinValue, idx: usize) -> (r: TinValue)
    requires
        v.is_vector_rep(),
        idx < rep_len(v@),
    ensures
        r@ == rep_elem(v@, idx as int),
{
    broadcast use lemma_rep_seq;

    match v {
        TinValue::Vector(inner) => {
            proof {
                assert(v@ == RepVal::Vector(rep_seq(inner@)));
            }
            clone_value(&inner[idx])
        },
        TinValue::IntVector(inner) => TinValue::Int(inner[idx]),
        TinValue::FloatVector(inner) => TinValue::Float(inner[idx]),
        _ => TinValue::Int(0),
    }
}

/// The length of a vector-shaped value.
pub fn len_of(v: &TinValue) -> (r: usize)
    requires
        v.is_vector_rep(),
    ensures
        r == rep_len(v@),
{
    broadcast use lemma_rep_seq;

    match v {
        TinValue::Vector(inner) => {
            proof {
                assert(v@ == RepVal::Vector(rep_seq(inner@)));
            }
            inner.len()
        },
        TinValue::IntVector(inner) => inner.len(),
        TinValue::FloatVector(inner) => inner.len(),
        _ => 0,
    }
}

/// Pops an index and a vector and pushes the element at that index.
pub fn op_get(stack: &mut Vec<TinValue>) -> (r: Result<(), TinError>)
    ensures
        r is Ok <==> (old(stack)@.len() >= 2 && old(stack)@.last() is Int && rep_is_vec(
            old(stack)@[old(stack)@.len() - 2]@,
        ) && 0 <= old(stack)@.last()->Int_0 < rep_len(old(stack)@[old(stack)@.len() - 2]@)),
        r is Ok ==> final(stack)@.len() == old(stack)@.len() - 1 && final(stack)@.drop_last()
            == old(stack)@.drop_last().drop_last() && final(stack)@.last()@ == rep_elem(
            old(stack)@[old(stack)@.len() - 2]@,
            old(stack)@.last()->Int_0 as int,
        ),
        r is Err ==> (r->Err_0 == TinError::EmptyStack || r->Err_0 == TinError::NotIntAndVector
            || r->Err_0 == TinError::IndexOutOfRange),
{
    let idx = match stack.pop() {
        Some(v) => v,
        None => {
            return Err(TinError::EmptyStack);
        },
    };
    let v = match stack.pop() {
        Some(v) => v,
        None => {
            stack.push(idx);
            return Err(TinError::EmptyStack);
        },
    };
    let n = match idx {
        TinValue::Int(n) => n,
        other => {
            stack.push(v);
            stack.push(other);
            return Err(TinError::NotIntAndVector);
        },
    };
    let is_v = match &v {
        TinValue::Int(_) => false,
        TinValue::Float(_) => false,
        _ => true,
    };
    if !is_v {
        stack.push(v);
        stack.push(TinValue::Int(n));
        return Err(TinError::NotIntAndVector);
    }
    let ln = len_of(&v);
    if n < 0 || (n as u64) >= (ln as u64) {
        stack.push(v);
        stack.push(TinValue::Int(n));
        return Err(TinError::IndexOutOfRange);
    }
    let e = elem_of(&v, n as usize);
    stack.push(e);
    Ok(())
}

/// Pops an index and pushes the element at that index of the vector
/// below, which stays.
pub fn op_get_nc(stack: &mut Vec<TinValue>) -> (r: Result<(), TinError>)
    ensures
        r is Ok <==> (old(stack)@.len() >= 2 && old(stack)@.last() is Int && rep_is_vec(
            old(stack)@[old(stack)@.len() - 2]@,
        ) && 0 <= old(stack)@.last()->Int_0 < rep_len(old(stack)@[old(stack)@.len() - 2]@)),
        r is Ok ==> final(stack)@.len() == old(stack)@.len() && final(stack)@.drop_last() == old(
            stack,
        )@.drop_last() && final(stack)@.last()@ == rep_elem(
            old(stack)@[old(stack)@.len() - 2]@,
            old(stack)@.last()->Int_0 as int,
        ),
        r is Err ==> (r->Err_0 == TinError::EmptyStack || r->Err_0 == TinError::NotIntAndVector
            || r->Err_0 == TinError::IndexOutOfRange),
{
    let idx = match stack.pop() {
        Some(v) => v,
        None => {
            return Err(TinError::EmptyStack);
        },
    };
    let n = match idx {
        TinValue::Int(n) => n,
        other => {
            stack.push(other);
            return Err(TinError::NotIntAndVector);
        },
    };
    if stack.len() == 0 {
        stack.push(TinValue::Int(n));
        return Err(TinError::EmptyStack);
    }
    let e = {
        let v = &stack[stack.len() - 1];
        let is_v = match v {
            TinValue::Int(_) => false,
            TinValue::Float(_) => false,
            _ => true,
        };
        if !is_v {
            stack.push(TinValue::Int(n));
            return Err(TinError::NotIntAndVector);
        }
        let ln = len_of(v);
        if n < 0 || (n as u64) >= (ln as u64) {
            stack.push(TinValue::Int(n));
            return Err(TinError::IndexOutOfRange);
        }
        elem_of(v, n as usize)
    };
    stack.push(e);
    proof {
        assert(final(stack)@.drop_last() =~= old(stack)@.drop_last());
    }
    Ok(())
}

/// What setting index `n` of a vector to `e` yields: a homogeneous
/// vector is always reboxed to the general representation.
pub open spec fn set_rep(r: RepVal, n: int, e: RepVal) -> RepVal {
    match r {
        RepVal::Vector(s) => RepVal::Vector(s.update(n, e)),
        RepVal::IntVector(s) => RepVal::Vector(
            Seq::new(s.len(), |i: int| RepVal::Int(s[i])).update(n, e),
        ),
        RepVal::FloatVector(s) => RepVal::Vector(
            Seq::new(s.len(), |i: int| RepVal::Float(s[i])).update(n, e),
        ),
        _ => r,
    }
}

/// Pops an index and an element and stores the element at that index of
/// the vector below, which stays (reboxed generally when it was
/// homogeneous).
#[verifier::loop_isolation(false)]
pub fn op_set(stack: &mut Vec<TinValue>) -> (r: Result<(), TinError>)
    ensures
        r is Ok <==> (old(stack)@.len() >= 3 && old(stack)@.last() is Int && rep_is_vec(
            old(stack)@[old(stack)@.len() - 3]@,
        ) && 0 <= old(stack)@.last()->Int_0 < rep_len(old(stack)@[old(stack)@.len() - 3]@)),
        r is Ok ==> final(stack)@.len() == old(stack)@.len() - 2 && final(stack)@.drop_last()
            == old(stack)@.subrange(0, old(stack)@.len() - 3) && final(stack)@.last()@ == set_rep(
            old(stack)@[old(stack)@.len() - 3]@,
            old(stack)@.last()->Int_0 as int,
            old(stack)@[old(stack)@.len() - 2]@,
        ),
        r is Err ==> (r->Err_0 == TinError::EmptyStack || r->Err_0 == TinError::NotIntAndVector
            || r->Err_0 == TinError::IndexOutOfRange),
{
    broadcast use lemma_rep_seq;

    let idx = match stack.pop() {
        Some(v) => v,
        None => {
            return Err(TinError::EmptyStack);
        },
    };
    let n = match idx {
        TinValue::Int(n) => n,
        other => {
            stack.push(other);
            return Err(TinError::NotIntAndVector);
        },
    };
    let elem = match stack.pop() {
        Some(v) => v,
        None => {
            stack.push(TinValue::Int(n));
            return Err(TinError::EmptyStack);
        },
    };
    let v = match stack.pop() {
        Some(v) => v,
        None => {
            stack.push(elem);
            stack.push(TinValue::Int(n));
            return Err(TinError::EmptyStack);
        },
    };
    let ghost vrep = v@;
    let ghost erep = elem@;
    let is_v = match &v {
        TinValue::Int(_) => false,
        TinValue::Float(_) => false,
        _ => true,
    };
    if !is_v {
        stack.push(v);
        stack.push(elem);
        stack.push(TinValue::Int(n));
        return Err(TinError::NotIntAndVector);
    }
    let ln = len_of(&v);
    if n < 0 || (n as u64) >= (ln as u64) {
        stack.push(v);
        stack.push(TinValue::Int(n));
        return Err(TinError::IndexOutOfRange);
    }
    match v {
        TinValue::Vector(mut inner) => {
            let ghost before = inner@;
            inner.set(n as usize, elem);
            proof {
                assert forall|j: int|
                    0 <= j < rep_seq(inner@).len() implies #[trigger] rep_seq(inner@)[j]
                    == rep_seq(before).update(n as int, erep)[j] by {
                    assert(rep_seq(inner@)[j] == rep_of(inner@[j]));
                    if j != n {
                        assert(inner@[j] == before[j]);
                        assert(rep_seq(before)[j] == rep_of(before[j]));
                    }
                }
                assert(rep_seq(inner@) =~= rep_seq(before).update(n as int, erep));
            }
            stack.push(TinValue::Vector(inner));
            Ok(())
        },
        TinValue::IntVector(inner) => {
            let mut nv: Vec<TinValue> = Vec::new();
            let k = inner.len();
            let mut i: usize = 0;
            while i < k
                invariant
                    0 <= i <= k,
                    k == inner@.len(),
                    nv@.len() == i,
                    forall|j: int| 0 <= j < i ==> nv@[j] == TinValue::Int(#[trigger] inner@[j]),
                decreases k - i,
            {
                nv.push(TinValue::Int(inner[i]));
                i += 1;
            }
            let ghost before = nv@;
            nv.set(n as usize, elem);
            proof {
                assert forall|j: int|
                    0 <= j < rep_seq(nv@).len() implies #[trigger] rep_seq(nv@)[j] == Seq::new(
                    inner@.len(),
                    |t: int| RepVal::Int(inner@[t]),
                ).update(n as int, erep)[j] by {
                    assert(rep_seq(nv@)[j] == rep_of(nv@[j]));
                    if j != n {
                        assert(nv@[j] == before[j]);
                    }
                }
                assert(rep_seq(nv@) =~= Seq::new(
                    inner@.len(),
                    |t: int| RepVal::Int(inner@[t]),
                ).update(n as int, erep));
            }
            stack.push(TinValue::Vector(nv));
            Ok(())
        },
        TinValue::FloatVector(inner) => {
            let mut nv: Vec<TinValue> = Vec::new();
            let k = inner.len();
            let mut i: usize = 0;
            while i < k
                invariant
                    0 <= i <= k,
                    k == inner@.len(),
                    nv@.len() == i,
                    forall|j: int| 0 <= j < i ==> nv@[j] == TinValue::Float(#[trigger] inner@[j]),
                decreases k - i,
            {
                nv.push(TinValue::Float(inner[i]));
                i += 1;
            }
            let ghost before = nv@;
            nv.set(n as usize, elem);
            proof {
                assert forall|j: int|
                    0 <= j < rep_seq(nv@).len() implies #[trigger] rep_seq(nv@)[j] == Seq::new(
                    inner@.len(),
                    |t: int| RepVal::Float(inner@[t]),
                ).update(n as int, erep)[j] by {
                    assert(rep_seq(nv@)[j] == rep_of(nv@[j]));
                    if j != n {
                        assert(nv@[j] == before[j]);
                    }
                }
                assert(rep_seq(nv@) =~= Seq::new(
                    inner@.len(),
                    |t: int| RepVal::Float(inner@[t]),
                ).update(n as int, erep));
            }
            stack.push(TinValue::Vector(nv));
            Ok(())
        },
        _ => Err(TinError::NotIntAndVector),
    }
}

/// Whether every mirrored element is an integer index into a vector of
/// the given length.
pub open spec fn all_indices(s: Seq<RepVal>, n: int) -> bool {
    forall|i: int| 0 <= i < s.len() ==> ((#[trigger] s[i]) matches RepVal::Int(k) && 0 <= k < n)
}

/// What gathering by index yields: element `i` of the result is the
/// indexed element of the source; a homogeneous source keeps its
/// representation.
pub open spec fn gather_rep(src: RepVal, idx: Seq<RepVal>) -> RepVal {
    match src {
        RepVal::Vector(s) => RepVal::Vector(Seq::new(idx.len(), |i: int| s[idx[i]->Int_0 as int])),
        RepVal::IntVector(s) => RepVal::IntVector(
            Seq::new(idx.len(), |i: int| s[idx[i]->Int_0 as int]),
        ),
        RepVal::FloatVector(s) => RepVal::FloatVector(
            Seq::new(idx.len(), |i: int| s[idx[i]->Int_0 as int]),
        ),
        _ => src,
    }
}

/// Pops an index vector and replaces the vector below with its gathered
/// elements; every index must be an integer in range.
#[verifier::loop_isolation(false)]
pub fn op_from_index(stack: &mut Vec<TinValue>) -> (r: Result<(), TinError>)
    ensures
        r is Ok <==> (old(stack)@.len() >= 2 && rep_is_vec(old(stack)@.last()@) && old(
            stack,
        )@.last()@ !is FloatVector && rep_is_vec(old(stack)@[old(stack)@.len() - 2]@)
            && all_indices(
            crate::ops_stack::rep_items(old(stack)@.last()@),
            rep_len(old(stack)@[old(stack)@.len() - 2]@) as int,
        )),
        r is Ok ==> final(stack)@.len() == old(stack)@.len() - 1 && final(stack)@.drop_last()
            == old(stack)@.drop_last().drop_last() && final(stack)@.last()@ == gather_rep(
            old(stack)@[old(stack)@.len() - 2]@,
            crate::ops_stack::rep_items(old(stack)@.last()@),
        ),
        r is Err ==> (r->Err_0 == TinError::EmptyStack || r->Err_0 == TinError::NotTwoVectors
            || r->Err_0 == TinError::NotAnInt || r->Err_0 == TinError::IndexOutOfRange),
{
    broadcast use lemma_rep_seq;

    let idxv = match stack.pop() {
        Some(v) => v,
        None => {
            return Err(TinError::EmptyStack);
        },
    };
    let src = match stack.pop() {
        Some(v) => v,
        None => {
            stack.push(idxv);
            return Err(TinError::EmptyStack);
        },
    };
    let ghost irep = idxv@;
    let ghost srep = src@;
    let idx_ok = match &idxv {
        TinValue::Vector(_) => true,
        TinValue::IntVector(_) => true,
        _ => false,
    };
    let src_ok = match &src {
        TinValue::Int(_) => false,
        TinValue::Float(_) => false,
        _ => true,
    };
    if !src_ok || !idx_ok {
        let e = if idxv.is_float_vector() {
            TinError::NotAnInt
        } else {
            TinError::NotTwoVectors
        };
        stack.push(src);
        stack.push(idxv);
        return Err(e);
    }
    let n = len_of(&src);
    let k = len_of(&idxv);
    let mut picks: Vec<usize> = Vec::new();
    let mut i: usize = 0;
    while i < k
        invariant
            0 <= i <= k,
            stack@ == old(stack)@.drop_last().drop_last(),
            k == rep_len(irep),
            n == rep_len(srep),
            idxv.is_vector_rep(),
            irep == idxv@,
            rep_is_vec(irep) && irep !is FloatVector,
            picks@.len() == i,
            forall|j: int|
                0 <= j < i ==> ((#[trigger] rep_elem(irep, j)) matches RepVal::Int(t) && 0 <= t < n
                    && picks@[j] == t as usize),
        decreases k - i,
    {
        let e = elem_of(&idxv, i);
        proof {
            assert(crate::ops_stack::rep_items(irep)[i as int] == rep_elem(irep, i as int));
        }
        match e {
            TinValue::Int(t) => {
                if t < 0 || (t as u64) >= (n as u64) {
                    proof {
                        assert(!all_indices(crate::ops_stack::rep_items(irep), n as int));
                    }
                    stack.push(src);
                    stack.push(idxv);
                    return Err(TinError::IndexOutOfRange);
                }
                picks.push(t as usize);
            },
            _ => {
                proof {
                    assert(!all_indices(crate::ops_stack::rep_items(irep), n as int));
                }
                stack.push(src);
                stack.push(idxv);
                return Err(TinError::NotAnInt);
            },
        }
        i += 1;
    }
    proof {
        assert(all_indices(crate::ops_stack::rep_items(irep), n as int)) by {
            assert forall|j: int|
                0 <= j < crate::ops_stack::rep_items(irep).len() implies ((
            #[trigger] crate::ops_stack::rep_items(irep)[j]) matches RepVal::Int(t) && 0 <= t
                < n) by {
                assert(crate::ops_stack::rep_items(irep)[j] == rep_elem(irep, j));
            }
        }
    }
    proof {
        assert forall|j: int| 0 <= j < k implies #[trigger] picks@[j] < n by {
            assert(rep_elem(irep, j) matches RepVal::Int(t) && 0 <= t < n && picks@[j]
                == t as usize);
        }
    }
    match src {
        TinValue::Vector(s) => {
            proof {
                assert(srep == RepVal::Vector(rep_seq(s@)));
                assert(s@.len() == n);
            }
            let mut out: Vec<TinValue> = Vec::new();
            let mut i: usize = 0;
            while i < k
                invariant
                    0 <= i <= k,
                    k == picks@.len(),
                    s@.len() == n,
                    forall|j: int| 0 <= j < k ==> #[trigger] picks@[j] < n,
                    out@.len() == i,
                    forall|j: int| 0 <= j < i ==> #[trigger] out@[j]@ == s@[picks@[j] as int]@,
                decreases k - i,
            {
                out.push(clone_value(&s[picks[i]]));
                i += 1;
            }
            proof {
                let target = gather_rep(srep, crate::ops_stack::rep_items(irep));
                assert forall|j: int|
                    0 <= j < rep_seq(out@).len() implies #[trigger] rep_seq(out@)[j]
                    == target->Vector_0[j] by {
                    assert(rep_seq(out@)[j] == rep_of(out@[j]));
                    assert(crate::ops_stack::rep_items(irep)[j] == rep_elem(irep, j));
                    assert(rep_elem(irep, j) matches RepVal::Int(t) && 0 <= t < n && picks@[j]
                        == t as usize);
                    assert(out@[j]@ == s@[picks@[j] as int]@);
                    assert(rep_seq(s@)[picks@[j] as int] == rep_of(s@[picks@[j] as int]));
                }
                assert(rep_seq(out@) =~= target->Vector_0);
            }
            stack.push(TinValue::Vector(out));
            proof {
                assert(stack@.drop_last() =~= old(stack)@.drop_last().drop_last());
            }
            Ok(())
        },
        TinValue::IntVector(s) => {
            proof {
                assert(srep == RepVal::IntVector(s@));
            }
            let mut out: Vec<i64> = Vec::new();
            let mut i: usize = 0;
            while i < k
                invariant
                    0 <= i <= k,
                    k == picks@.len(),
                    s@.len() == n,
                    forall|j: int| 0 <= j < k ==> #[trigger] picks@[j] < n,
                    out@.len() == i,
                    forall|j: int| 0 <= j < i ==> #[trigger] out@[j] == s@[picks@[j] as int],
                decreases k - i,
            {
                out.push(s[picks[i]]);
                i += 1;
            }
            proof {
                let target = gather_rep(srep, crate::ops_stack::rep_items(irep));
                assert forall|j: int|
                    0 <= j < out@.len() implies #[trigger] out@[j] == target->IntVector_0[j] by {
                    assert(crate::ops_stack::rep_items(irep)[j] == rep_elem(irep, j));
                    assert(rep_elem(irep, j) matches RepVal::Int(t) && 0 <= t < n && picks@[j]
                        == t as usize);
                }
                assert(out@ =~= target->IntVector_0);
            }
            stack.push(TinValue::IntVector(out));
            proof {
                assert(stack@.drop_last() =~= old(stack)@.drop_last().drop_last());
            }
            Ok(())
        },
        TinValue::FloatVector(s) => {
            proof {
                assert(srep == RepVal::FloatVector(s@));
            }
            let mut out: Vec<u64> = Vec::new();
            let mut i: usize = 0;
            while i < k
                invariant
                    0 <= i <= k,
                    k == picks@.len(),
                    s@.len() == n,
                    forall|j: int| 0 <= j < k ==> #[trigger] picks@[j] < n,
                    out@.len() == i,
                    forall|j: int| 0 <= j < i ==> #[trigger] out@[j] == s@[picks@[j] as int],
                decreases k - i,
            {
                out.push(s[picks[i]]);
                i += 1;
            }
            proof {
                let target = gather_rep(srep, crate::ops_stack::rep_items(irep));
                assert forall|j: int|
                    0 <= j < out@.len() implies #[trigger] out@[j] == target->FloatVector_0[j] by {
                    assert(crate::ops_stack::rep_items(irep)[j] == rep_elem(irep, j));
                    assert(rep_elem(irep, j) matches RepVal::Int(t) && 0 <= t < n && picks@[j]
                        == t as usize);
                }
                assert(out@ =~= target->FloatVector_0);
            }
            stack.push(TinValue::FloatVector(out));
            proof {
                assert(stack@.drop_last() =~= old(stack)@.drop_last().drop_last());
            }
            Ok(())
        },
        other => {
            stack.push(other);
            stack.push(idxv);
            Err(TinError::NotTwoVectors)
        },
    }
}

impl TinValue {
    /// Whether this value is the homogeneous float representation.
    pub open spec fn spec_is_float_vector(&self) -> bool {
        self@ is FloatVector
    }

    /// Whether this value is the homogeneous float representation.
    #[verifier::when_used_as_spec(spec_is_float_vector)]
    pub fn is_float_vector(&self) -> (r: bool)
        ensures
            r == (self@ is FloatVector),
    {
        match self {
            TinValue::FloatVector(_) => true,
            _ => false,
        }
    }
}

/// What one pair of a cartesian product or zip looks like: two integers
/// pair as an integer vector, two floats as a float vector, anything
/// else as a general pair.
pub open spec fn pair_rep(x: RepVal, y: RepVal) -> RepVal {
    match (x, y) {
        (RepVal::Int(a), RepVal::Int(b)) => RepVal::IntVector(seq![a, b]),
        (RepVal::Float(a), RepVal::Float(b)) => RepVal::FloatVector(seq![a, b]),
        _ => RepVal::Vector(seq![x, y]),
    }
}

/// A fresh pair value with the given mirrors.
pub fn mk_pair(x: TinValue, y: TinValue) -> (r: TinValue)
    ensures
        r@ == pair_rep(x@, y@),
{
    broadcast use lemma_rep_seq;

    match (x, y) {
        (TinValue::Int(a), TinValue::Int(b)) => {
            let nv = vec![a, b];
            proof {
                assert(nv@ =~= seq![a, b]);
            }
            TinValue::IntVector(nv)
        },
        (TinValue::Float(a), TinValue::Float(b)) => {
            let nv = vec![a, b];
            proof {
                assert(nv@ =~= seq![a, b]);
            }
            TinValue::FloatVector(nv)
        },
        (x, y) => {
            let ghost xr = x@;
            let ghost yr = y@;
            let mut nv: Vec<TinValue> = Vec::new();
            nv.push(x);
            nv.push(y);
            proof {
                assert(rep_seq(nv@) =~= seq![xr, yr]);
            }
            TinValue::Vector(nv)
        },
    }
}

/// The cartesian product of two vector shapes: every pair, the first
/// element varying slowest.
pub open spec fn cart_rep(a: RepVal, b: RepVal) -> Seq<RepVal> {
    Seq::new(
        rep_len(a) * rep_len(b),
        |k: int| pair_rep(rep_elem(a, k / rep_len(b) as int), rep_elem(b, k % rep_len(b) as int)),
    )
}

/// Pops two vectors and pushes the general vector of all their pairs:
/// the top vector's elements vary slowest.
#[verifier::loop_isolation(false)]
pub fn op_cartesian(stack: &mut Vec<TinValue>) -> (r: Result<(), TinError>)
    ensures
        r is Ok <==> (old(stack)@.len() >= 2 && rep_is_vec(old(stack)@.last()@) && rep_is_vec(
            old(stack)@[old(stack)@.len() - 2]@,
        )),
        r is Ok ==> final(stack)@.len() == old(stack)@.len() - 1 && final(stack)@.drop_last()
            == old(stack)@.drop_last().drop_last() && final(stack)@.last()@ == RepVal::Vector(
            cart_rep(old(stack)@.last()@, old(stack)@[old(stack)@.len() - 2]@),
        ),
        r is Err ==> (r->Err_0 == TinError::EmptyStack || r->Err_0 == TinError::NotTwoVectors),
{
    broadcast use lemma_rep_seq;

    let a = match stack.pop() {
        Some(v) => v,
        None => {
            return Err(TinError::EmptyStack);
        },
    };
    let b = match stack.pop() {
        Some(v) => v,
        None => {
            stack.push(a);
            return Err(TinError::EmptyStack);
        },
    };
    let ghost arep = a@;
    let ghost brep = b@;
    let a_ok = match &a {
        TinValue::Int(_) => false,
        TinValue::Float(_) => false,
        _ => true,
    };
    let b_ok = match &b {
        TinValue::Int(_) => false,
        TinValue::Float(_) => false,
        _ => true,
    };
    if !a_ok || !b_ok {
        stack.push(b);
        stack.push(a);
        return Err(TinError::NotTwoVectors);
    }
    let na = len_of(&a);
    let nb = len_of(&b);
    let mut out: Vec<TinValue> = Vec::new();
    let mut i: usize = 0;
    while i < na
        invariant
            0 <= i <= na,
            na == rep_len(arep),
            nb == rep_len(brep),
            a.is_vector_rep() && a@ == arep,
            b.is_vector_rep() && b@ == brep,
            out@.len() == i * nb,
            forall|k: int|
                0 <= k < i * nb ==> #[trigger] out@[k]@ == pair_rep(
                    rep_elem(arep, k / nb as int),
                    rep_elem(brep, k % nb as int),
                ),
        decreases na - i,
    {
        let mut j: usize = 0;
        while j < nb
            invariant
                0 <= i < na,
                0 <= j <= nb,
                na == rep_len(arep),
                nb == rep_len(brep),
                a.is_vector_rep() && a@ == arep,
                b.is_vector_rep() && b@ == brep,
                out@.len() == i * nb + j,
                forall|k: int|
                    0 <= k < i * nb + j ==> #[trigger] out@[k]@ == pair_rep(
                        rep_elem(arep, k / nb as int),
                        rep_elem(brep, k % nb as int),
                    ),
            decreases nb - j,
        {
            let x = elem_of(&a, i);
            let y = elem_of(&b, j);
            let p = mk_pair(x, y);
            proof {
                assert((i * nb + j) / (nb as int) == i as int && (i * nb + j) % (nb as int)
                    == j as int) by (nonlinear_arith)
                    requires
                        0 <= j < nb,
                        0 <= i,
                {
                }
            }
            out.push(p);
            proof {
                assert(i * nb + (j + 1) == i * nb + j + 1);
            }
            j += 1;
        }
        proof {
            assert((i + 1) * nb == i * nb + nb) by (nonlinear_arith);
        }
        i += 1;
    }
    proof {
        assert(na * nb == rep_len(arep) * rep_len(brep));
        assert forall|k: int|
            0 <= k < rep_seq(out@).len() implies #[trigger] rep_seq(out@)[k] == cart_rep(
            arep,
            brep,
        )[k] by {
            assert(rep_seq(out@)[k] == rep_of(out@[k]));
            assert(out@[k]@ == pair_rep(
                rep_elem(arep, k / nb as int),
                rep_elem(brep, k % nb as int),
            ));
        }
        assert(rep_seq(out@) =~= cart_rep(arep, brep));
    }
    stack.push(TinValue::Vector(out));
    Ok(())
}

/// The zip of two vector shapes: pairs over the common prefix, the
/// second-popped vector's element first.
pub open spec fn zip_rep(a: RepVal, b: RepVal) -> Seq<RepVal> {
    Seq::new(
        min_len(rep_len(a), rep_len(b)),
        |k: int| pair_rep(rep_elem(b, k), rep_elem(a, k)),
    )
}

/// Pops two vectors and pushes the general vector pairing them up
/// elementwise over the common prefix; each pair holds the lower
/// vector's element first.
#[verifier::loop_isolation(false)]
pub fn op_zip(stack: &mut Vec<TinValue>) -> (r: Result<(), TinError>)
    ensures
        r is Ok <==> (old(stack)@.len() >= 2 && rep_is_vec(old(stack)@.last()@) && rep_is_vec(
            old(stack)@[old(stack)@.len() - 2]@,
        )),
        r is Ok ==> final(stack)@.len() == old(stack)@.len() - 1 && final(stack)@.drop_last()
            == old(stack)@.drop_last().drop_last() && final(stack)@.last()@ == RepVal::Vector(
            zip_rep(old(stack)@.last()@, old(stack)@[old(stack)@.len() - 2]@),
        ),
        r is Err ==> (r->Err_0 == TinError::EmptyStack || r->Err_0 == TinError::NotTwoVectors),
{
    broadcast use lemma_rep_seq;

    let a = match stack.pop() {
        Some(v) => v,
        None => {
            return Err(TinError::EmptyStack);
        },
    };
    let b = match stack.pop() {
        Some(v) => v,
        None => {
            stack.push(a);
            return Err(TinError::EmptyStack);
        },
    };
    let ghost arep = a@;
    let ghost brep = b@;
    let a_ok = match &a {
        TinValue::Int(_) => false,
        TinValue::Float(_) => false,
        _ => true,
    };
    let b_ok = match &b {
        TinValue::Int(_) => false,
        TinValue::Float(_) => false,
        _ => true,
    };
    if !a_ok || !b_ok {
        stack.push(b);
        stack.push(a);
        return Err(TinError::NotTwoVectors);
    }
    let na = len_of(&a);
    let nb = len_of(&b);
    let n = if na <= nb {
        na
    } else {
        nb
    };
    let mut out: Vec<TinValue> = Vec::new();
    let mut i: usize = 0;
    while i < n
        invariant
            0 <= i <= n,
            na == rep_len(arep),
            nb == rep_len(brep),
            n == min_len(rep_len(arep), rep_len(brep)),
            a.is_vector_rep() && a@ == arep,
            b.is_vector_rep() && b@ == brep,
            out@.len() == i,
            forall|k: int|
                0 <= k < i ==> #[trigger] out@[k]@ == pair_rep(rep_elem(brep, k), rep_elem(arep, k)),
        decreases n - i,
    {
        let y = elem_of(&b, i);
        let x = elem_of(&a, i);
        out.push(mk_pair(y, x));
        i += 1;
    }
    proof {
        assert forall|k: int|
            0 <= k < rep_seq(out@).len() implies #[trigger] rep_seq(out@)[k] == zip_rep(
            arep,
            brep,
        )[k] by {
            assert(rep_seq(out@)[k] == rep_of(out@[k]));
            assert(out@[k]@ == pair_rep(rep_elem(brep, k), rep_elem(arep, k)));
        }
        assert(rep_seq(out@) =~= zip_rep(arep, brep));
    }
    stack.push(TinValue::Vector(out));
    Ok(())
}

/// The windows of width `w` over a vector shape: each keeps the source
/// representation.
pub open spec fn window_rep(r: RepVal, w: int) -> Seq<RepVal> {
    let count = if rep_len(r) >= w {
        rep_len(r) - w + 1
    } else {
        0
    };
    match r {
        RepVal::Vector(s) => Seq::new(count as nat, |k: int| RepVal::Vector(s.subrange(k, k + w))),
        RepVal::IntVector(s) => Seq::new(
            count as nat,
            |k: int| RepVal::IntVector(s.subrange(k, k + w)),
        ),
        RepVal::FloatVector(s) => Seq::new(
            count as nat,
            |k: int| RepVal::FloatVector(s.subrange(k, k + w)),
        ),
        _ => Seq::empty(),
    }
}

/// Pops a window width and a vector and pushes the general vector of
/// its sliding windows; the width must be at least one. A failure
/// consumes whatever was popped before it was noticed: the popped
/// operands are not put back.
#[verifier::loop_isolation(false)]
pub fn op_window(stack: &mut Vec<TinValue>) -> (r: Result<(), TinError>)
    ensures
        r is Ok <==> (old(stack)@.len() >= 2 && old(stack)@.last() is Int && rep_is_vec(
            old(stack)@[old(stack)@.len() - 2]@,
        ) && old(stack)@.last()->Int_0 >= 1),
        r is Ok ==> final(stack)@.len() == old(stack)@.len() - 1 && final(stack)@.drop_last()
            == old(stack)@.drop_last().drop_last() && final(stack)@.last()@ == RepVal::Vector(
            window_rep(
                old(stack)@[old(stack)@.len() - 2]@,
                old(stack)@.last()->Int_0 as int,
            ),
        ),
        r is Err ==> (r->Err_0 == TinError::EmptyStack || r->Err_0 == TinError::NotIntAndVector
            || r->Err_0 == TinError::BadWindowSize),
        r is Err && old(stack)@.len() == 0 ==> final(stack)@ == old(stack)@,
        r is Err && old(stack)@.len() == 1 ==> final(stack)@ == old(stack)@.drop_last(),
        r is Err && old(stack)@.len() >= 2 ==> final(stack)@ == old(stack)@.drop_last()
            .drop_last(),
{
    broadcast use lemma_rep_seq;

    let size = match stack.pop() {
        Some(v) => v,
        None => {
            return Err(TinError::EmptyStack);
        },
    };
    let v = match stack.pop() {
        Some(v) => v,
        None => {
            return Err(TinError::EmptyStack);
        },
    };
    let w = match size {
        TinValue::Int(n) => n,
        _ => {
            return Err(TinError::NotIntAndVector);
        },
    };
    let ghost vrep = v@;
    let is_v = match &v {
        TinValue::Int(_) => false,
        TinValue::Float(_) => false,
        _ => true,
    };
    if !is_v {
        return Err(TinError::NotIntAndVector);
    }
    if w < 1 {
        return Err(TinError::BadWindowSize);
    }
    let n = len_of(&v);
    let count: usize = if (w as u64) <= (n as u64) {
        n - (w as usize) + 1
    } else {
        0
    };
    let mut out: Vec<TinValue> = Vec::new();
    let mut i: usize = 0;
    while i < count
        invariant
            0 <= i <= count,
            1 <= w,
            n == rep_len(vrep),
            count == if rep_len(vrep) >= w {
                rep_len(vrep) - w + 1
            } else {
                0
            },
            count > 0 ==> (w as usize) <= n,
            v.is_vector_rep() && v@ == vrep,
            out@.len() == i,
            forall|k: int| 0 <= k < i ==> #[trigger] out@[k]@ == window_rep(vrep, w as int)[k],
        decreases count - i,
    {
        let piece = slice_of(&v, i, i + (w as usize));
        proof {
            assert(window_rep(vrep, w as int)[i as int] == piece@);
        }
        out.push(piece);
        i += 1;
    }
    proof {
        assert forall|k: int|
            0 <= k < rep_seq(out@).len() implies #[trigger] rep_seq(out@)[k] == window_rep(
            vrep,
            w as int,
        )[k] by {
            assert(rep_seq(out@)[k] == rep_of(out@[k]));
            assert(out@[k]@ == window_rep(vrep, w as int)[k]);
        }
        assert(rep_seq(out@) =~= window_rep(vrep, w as int));
    }
    stack.push(TinValue::Vector(out));
    Ok(())
}

/// A contiguous slice of a vector-shaped value, keeping its
/// representation.
#[verifier::loop_isolation(false)]
fn slice_of(v: &TinValue, from: usize, to: usize) -> (r: TinValue)
    requires
        v.is_vector_rep(),
        from <= to <= rep_len(v@),
    ensures
        v@ is Vector ==> r@ == RepVal::Vector(v@->Vector_0.subrange(from as int, to as int)),
        v@ is IntVector ==> r@ == RepVal::IntVector(
            v@->IntVector_0.subrange(from as int, to as int),
        ),
        v@ is FloatVector ==> r@ == RepVal::FloatVector(
            v@->FloatVector_0.subrange(from as int, to as int),
        ),
{
    broadcast use lemma_rep_seq;

    match v {
        TinValue::Vector(inner) => {
            proof {
                assert(v@ == RepVal::Vector(rep_seq(inner@)));
            }
            let mut out: Vec<TinValue> = Vec::new();
            let mut i: usize = from;
            while i < to
                invariant
                    from <= i <= to,
                    to <= inner@.len(),
                    out@.len() == i - from,
                    forall|j: int| 0 <= j < i - from ==> #[trigger] out@[j]@ == inner@[from + j]@,
                decreases to - i,
            {
                out.push(clone_value(&inner[i]));
                i += 1;
            }
            proof {
                assert forall|j: int|
                    0 <= j < rep_seq(out@).len() implies #[trigger] rep_seq(out@)[j] == rep_seq(
                    inner@,
                ).subrange(from as int, to as int)[j] by {
                    assert(rep_seq(out@)[j] == rep_of(out@[j]));
                    assert(out@[j]@ == inner@[from + j]@);
                    assert(rep_seq(inner@)[from + j] == rep_of(inner@[from + j]));
                }
                assert(rep_seq(out@) =~= rep_seq(inner@).subrange(from as int, to as int));
            }
            TinValue::Vector(out)
        },
        TinValue::IntVector(inner) => {
            let mut out: Vec<i64> = Vec::new();
            let mut i: usize = from;
            while i < to
                invariant
                    from <= i <= to,
                    to <= inner@.len(),
                    out@ =~= inner@.subrange(from as int, i as int),
                decreases to - i,
            {
                out.push(inner[i]);
                proof {
                    assert(out@ =~= inner@.subrange(from as int, i + 1));
                }
                i += 1;
            }
            TinValue::IntVector(out)
        },
        TinValue::FloatVector(inner) => {
            let mut out: Vec<u64> = Vec::new();
            let mut i: usize = from;
            while i < to
                invariant
                    from <= i <= to,
                    to <= inner@.len(),
                    out@ =~= inner@.subrange(from as int, i as int),
                decreases to - i,
            {
                out.push(inner[i]);
                proof {
                    assert(out@ =~= inner@.subrange(from as int, i + 1));
                }
                i += 1;
            }
            TinValue::FloatVector(out)
        },
        _ => TinValue::Int(0),
    }
}

} // verus!
