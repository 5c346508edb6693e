//! Array construction and indexing opcodes: append, merge, cartesian
//! product, zip, flatten, reverse, sliding window, element get/set and
//! gather-by-index. All indexing is bounds-checked and fails with a
//! typed error.
use vstd::prelude::*;

use crate::arith::floats_rep;
use crate::arith::ints_rep;
use crate::errors::TinError;
use crate::ops_stack::rep_is_vec;
use crate::ops_stack::rep_items;
use crate::value::lemma_rep_seq;
use crate::value::rep_of;
use crate::value::rep_seq;
use crate::value::RepVal;
use crate::value::TinValue;
use crate::vector::clone_value;
use crate::vector::rep_elem;

verus! {

broadcast use vstd::std_specs::vec::group_vec_axioms;

/// What appending one element to a vector yields: a general vector
/// grows; a homogeneous one grows while the element matches and
/// degrades to general otherwise (an empty general vector stays
/// general, unlike the capture accumulator).
pub open spec fn append_rep(r: RepVal, e: RepVal) -> RepVal {
    match r {
        RepVal::Vector(s) => RepVal::Vector(s + seq![e]),
        RepVal::IntVector(s) => match e {
            RepVal::Int(n) => RepVal::IntVector(s + seq![n]),
            _ => RepVal::Vector(ints_rep(s) + seq![e]),
        },
        RepVal::FloatVector(s) => match e {
            RepVal::Float(b) => RepVal::FloatVector(s + seq![b]),
            _ => RepVal::Vector(floats_rep(s) + seq![e]),
        },
        _ => r,
    }
}

/// Pops an element and appends it to the vector below.
#[verifier::loop_isolation(false)]
pub fn op_append(stack: &mut Vec<TinValue>) -> (r: Result<(), TinError>)
    ensures
        r is Ok <==> (old(stack)@.len() >= 2 && rep_is_vec(old(stack)@[old(stack)@.len() - 2]@)),
        r is Ok ==> final(stack)@.len() == old(stack)@.len() - 1 && final(stack)@.drop_last()
            == old(stack)@.drop_last().drop_last() && final(stack)@.last()@ == append_rep(
            old(stack)@[old(stack)@.len() - 2]@,
            old(stack)@.last()@,
        ),
        r is Err ==> (r->Err_0 == TinError::EmptyStack || r->Err_0 == TinError::NotAVector),
{
    broadcast use lemma_rep_seq;

    let elem = match stack.pop() {
        Some(v) => v,
        None => {
            return Err(TinError::EmptyStack);
        },
    };
    let ghost erep = elem@;
    let below = match stack.pop() {
        Some(v) => v,
        None => {
            stack.push(elem);
            return Err(TinError::EmptyStack);
        },
    };
    let ghost brep = below@;
    match below {
        TinValue::Vector(mut v) => {
            let ghost vs = v@;
            v.push(elem);
            proof {
                assert(rep_seq(v@) =~= rep_seq(vs) + seq![erep]);
            }
            stack.push(TinValue::Vector(v));
            Ok(())
        },
        TinValue::IntVector(mut v) => {
            match elem {
                TinValue::Int(n) => {
                    let ghost vs = v@;
                    v.push(n);
                    proof {
                        assert(v@ =~= vs + seq![n]);
                    }
                    stack.push(TinValue::IntVector(v));
                    Ok(())
                },
                other => {
                    let mut nv: Vec<TinValue> = Vec::new();
                    let n = v.len();
                    let mut i: usize = 0;
                    while i < n
                        invariant
                            0 <= i <= n,
                            n == v@.len(),
                            nv@.len() == i,
                            forall|j: int|
                                0 <= j < i ==> nv@[j] == TinValue::Int(#[trigger] v@[j]),
                        decreases n - i,
                    {
                        nv.push(TinValue::Int(v[i]));
                        i += 1;
                    }
                    nv.push(other);
                    proof {
                        assert(rep_seq(nv@) =~= ints_rep(v@) + seq![erep]);
                    }
                    stack.push(TinValue::Vector(nv));
                    Ok(())
                },
            }
        },
        TinValue::FloatVector(mut v) => {
            match elem {
                TinValue::Float(b) => {
                    let ghost vs = v@;
                    v.push(b);
                    proof {
                        assert(v@ =~= vs + seq![b]);
                    }
                    stack.push(TinValue::FloatVector(v));
                    Ok(())
                },
                other => {
                    let mut nv: Vec<TinValue> = Vec::new();
                    let n = v.len();
                    let mut i: usize = 0;
                    while i < n
                        invariant
                            0 <= i <= n,
                            n == v@.len(),
                            nv@.len() == i,
                            forall|j: int|
                                0 <= j < i ==> nv@[j] == TinValue::Float(#[trigger] v@[j]),
                        decreases n - i,
                    {
                        nv.push(TinValue::Float(v[i]));
                        i += 1;
                    }
                    nv.push(other);
                    proof {
                        assert(rep_seq(nv@) =~= floats_rep(v@) + seq![erep]);
                    }
                    stack.push(TinValue::Vector(nv));
                    Ok(())
                },
            }
        },
        other => {
            stack.push(other);
            stack.push(elem);
            Err(TinError::NotAVector)
        },
    }
}

/// What merging `a` onto the end of `b` yields: a concatenation that
/// keeps a common homogeneous representation and degrades to the
/// general one otherwise.
pub open spec fn merge_rep(b: RepVal, a: RepVal) -> RepVal {
    match (a, b) {
        (RepVal::Vector(sa), RepVal::Vector(sb)) => RepVal::Vector(sb + sa),
        (RepVal::Vector(sa), RepVal::IntVector(sb)) => RepVal::Vector(ints_rep(sb) + sa),
        (RepVal::Vector(sa), RepVal::FloatVector(sb)) => RepVal::Vector(floats_rep(sb) + sa),
        (RepVal::IntVector(sa), RepVal::Vector(sb)) => RepVal::Vector(sb + ints_rep(sa)),
        (RepVal::IntVector(sa), RepVal::IntVector(sb)) => RepVal::IntVector(sb + sa),
        (RepVal::IntVector(sa), RepVal::FloatVector(sb)) => RepVal::Vector(
            floats_rep(sb) + ints_rep(sa),
        ),
        (RepVal::FloatVector(sa), RepVal::FloatVector(sb)) => RepVal::FloatVector(sb + sa),
        (RepVal::FloatVector(sa), RepVal::Vector(sb)) => RepVal::Vector(sb + floats_rep(sa)),
        (RepVal::FloatVector(sa), RepVal::IntVector(sb)) => RepVal::Vector(
            ints_rep(sb) + floats_rep(sa),
        ),
        _ => b,
    }
}

/// A vector-shaped value rebuilt with its elements boxed generally.
#[verifier::loop_isolation(false)]
fn to_general(v: TinValue) -> (r: Vec<TinValue>)
    requires
        v.is_vector_rep(),
    ensures
        rep_seq(r@) =~= rep_items(v@),
{
    broadcast use lemma_rep_seq;

    let ghost vrep = v@;
    match v {
        TinValue::Vector(inner) => {
            proof {
                assert forall|j: int|
                    0 <= j < rep_seq(inner@).len() implies #[trigger] rep_seq(inner@)[j]
                    == rep_items(vrep)[j] by {
                    assert(rep_seq(inner@)[j] == rep_of(inner@[j]));
                    assert(rep_items(vrep)[j] == rep_elem(vrep, j));
                }
            }
            inner
        },
        TinValue::IntVector(inner) => {
            let mut nv: Vec<TinValue> = Vec::new();
            let n = inner.len();
            let mut i: usize = 0;
            while i < n
                invariant
                    0 <= i <= n,
                    n == inner@.len(),
                    nv@.len() == i,
                    forall|j: int| 0 <= j < i ==> nv@[j] == TinValue::Int(#[trigger] inner@[j]),
                decreases n - i,
            {
                nv.push(TinValue::Int(inner[i]));
                i += 1;
            }
            proof {
                assert(rep_seq(nv@) =~= rep_items(vrep));
            }
            nv
        },
        TinValue::FloatVector(inner) => {
            let mut nv: Vec<TinValue> = Vec::new();
            let n = inner.len();
            let mut i: usize = 0;
            while i < n
                invariant
                    0 <= i <= n,
                    n == inner@.len(),
                    nv@.len() == i,
                    forall|j: int| 0 <= j < i ==> nv@[j] == TinValue::Float(#[trigger] inner@[j]),
                decreases n - i,
            {
                nv.push(TinValue::Float(inner[i]));
                i += 1;
            }
            proof {
                assert(rep_seq(nv@) =~= rep_items(vrep));
            }
            nv
        },
        _ => Vec::new(),
    }
}

/// Pops a vector and merges it onto the end of the vector below.
#[verifier::loop_isolation(false)]
pub fn op_merge(stack: &mut Vec<TinValue>) -> (r: Result<(), TinError>)
    ensures
        r is Ok <==> (old(stack)@.len() >= 2 && rep_is_vec(old(stack)@.last()@) && rep_is_vec(
            old(stack)@[old(stack)@.len() - 2]@,
        )),
        r is Ok ==> final(stack)@.len() == old(stack)@.len() - 1 && final(stack)@.drop_last()
            == old(stack)@.drop_last().drop_last() && final(stack)@.last()@ == merge_rep(
            old(stack)@[old(stack)@.len() - 2]@,
            old(stack)@.last()@,
        ),
        r is Err ==> (r->Err_0 == TinError::EmptyStack || r->Err_0 == TinError::NotTwoVectors),
{
    broadcast use lemma_rep_seq;

    let a = match stack.pop() {
        Some(v) => v,
        None => {
            return Err(TinError::EmptyStack);
        },
    };
    let b = match stack.pop() {
        Some(v) => v,
        None => {
            stack.push(a);
            return Err(TinError::EmptyStack);
        },
    };
    let ghost arep = a@;
    let ghost brep = b@;
    match (a, b) {
        (TinValue::IntVector(av), TinValue::IntVector(mut bv)) => {
            let ghost bs = bv@;
            let n = av.len();
            let mut i: usize = 0;
            while i < n
                invariant
                    0 <= i <= n,
                    n == av@.len(),
                    bv@ =~= bs + av@.subrange(0, i as int),
                decreases n - i,
            {
                bv.push(av[i]);
                proof {
                    assert(bv@ =~= bs + av@.subrange(0, i + 1));
                }
                i += 1;
            }
            proof {
                assert(bv@ =~= bs + av@);
            }
            stack.push(TinValue::IntVector(bv));
            Ok(())
        },
        (TinValue::FloatVector(av), TinValue::FloatVector(mut bv)) => {
            let ghost bs = bv@;
            let n = av.len();
            let mut i: usize = 0;
            while i < n
                invariant
                    0 <= i <= n,
                    n == av@.len(),
                    bv@ =~= bs + av@.subrange(0, i as int),
                decreases n - i,
            {
                bv.push(av[i]);
                proof {
                    assert(bv@ =~= bs + av@.subrange(0, i + 1));
                }
                i += 1;
            }
            proof {
                assert(bv@ =~= bs + av@);
            }
            stack.push(TinValue::FloatVector(bv));
            Ok(())
        },
        (a, b) => {
            let a_vec = match &a {
                TinValue::Int(_) => false,
                TinValue::Float(_) => false,
                _ => true,
            };
            let b_vec = match &b {
                TinValue::Int(_) => false,
                TinValue::Float(_) => false,
                _ => true,
            };
            if !a_vec || !b_vec {
                stack.push(b);
                stack.push(a);
                return Err(TinError::NotTwoVectors);
            }
            let mut bg = to_general(b);
            let ghost bgs = bg@;
            let mut ag = to_general(a);
            let n = ag.len();
            let mut i: usize = 0;
            while i < n
                invariant
                    0 <= i <= n,
                    n == ag@.len(),
                    bg@.len() == bgs.len() + i,
                    bg@.subrange(0, bgs.len() as int) == bgs,
                    forall|j: int| 0 <= j < i ==> #[trigger] bg@[bgs.len() + j]@ == ag@[j]@,
                decreases n - i,
            {
                let e = clone_value(&ag[i]);
                proof {
                    assert(e@ == ag@[i as int]@);
                }
                let ghost before = bg@;
                bg.push(e);
                proof {
                    assert(bg@.subrange(0, bgs.len() as int) =~= bgs);
                    assert forall|j: int| 0 <= j < i + 1 implies #[trigger] bg@[bgs.len() + j]@
                        == ag@[j]@ by {
                        if j < i {
                            assert(bg@[bgs.len() + j] == before[bgs.len() + j]);
                            assert(before[bgs.len() + j]@ == ag@[j]@);
                        }
                    }
                }
                i += 1;
            }
            proof {
                assert forall|j: int|
                    0 <= j < rep_seq(bg@).len() implies #[trigger] rep_seq(bg@)[j] == (rep_items(
                    brep,
                ) + rep_items(arep))[j] by {
                    assert(rep_seq(bg@)[j] == rep_of(bg@[j]));
                    if j < bgs.len() {
                        assert(bg@[j] == bgs[j]);
                        assert(rep_seq(bgs)[j] == rep_of(bgs[j]));
                    } else {
                        let jj = j - bgs.len();
                        assert(bg@[bgs.len() + jj]@ == ag@[jj]@);
                        assert(rep_seq(ag@)[jj] == rep_of(ag@[jj]));
                    }
                }
                assert(rep_seq(bg@) =~= rep_items(brep) + rep_items(arep));
                lemma_merge_general(brep, arep);
            }
            stack.push(TinValue::Vector(bg));
            Ok(())
        },
    }
}

/// The general form of a merge concatenates the two element lists.
proof fn lemma_merge_general(b: RepVal, a: RepVal)
    requires
        rep_is_vec(a),
        rep_is_vec(b),
        !(a is IntVector && b is IntVector),
        !(a is FloatVector && b is FloatVector),
    ensures
        merge_rep(b, a) == RepVal::Vector(rep_items(b) + rep_items(a)),
{
    match (a, b) {
        (RepVal::Vector(sa), RepVal::Vector(sb)) => {
            assert(rep_items(b) =~= sb);
            assert(rep_items(a) =~= sa);
        },
        (RepVal::Vector(sa), RepVal::IntVector(sb)) => {
            assert(rep_items(b) =~= ints_rep(sb));
            assert(rep_items(a) =~= sa);
        },
        (RepVal::Vector(sa), RepVal::FloatVector(sb)) => {
            assert(rep_items(b) =~= floats_rep(sb));
            assert(rep_items(a) =~= sa);
        },
        (RepVal::IntVector(sa), RepVal::Vector(sb)) => {
            assert(rep_items(b) =~= sb);
            assert(rep_items(a) =~= ints_rep(sa));
        },
        (RepVal::IntVector(sa), RepVal::FloatVector(sb)) => {
            assert(rep_items(b) =~= floats_rep(sb));
            assert(rep_items(a) =~= ints_rep(sa));
        },
        (RepVal::FloatVector(sa), RepVal::Vector(sb)) => {
            assert(rep_items(b) =~= sb);
            assert(rep_items(a) =~= floats_rep(sa));
        },
        (RepVal::FloatVector(sa), RepVal::IntVector(sb)) => {
            assert(rep_items(b) =~= ints_rep(sb));
            assert(rep_items(a) =~= floats_rep(sa));
        },
        _ => {},
    }
}

/// Pops a vector and pushes it reversed.
#[verifier::loop_isolation(false)]
pub fn op_reverse(stack: &mut Vec<TinValue>) -> (r: Result<(), TinError>)
    ensures
        r is Ok <==> (old(stack)@.len() > 0 && rep_is_vec(old(stack)@.last()@)),
        r is Ok ==> final(stack)@.len() == old(stack)@.len() && final(stack)@.drop_last() == old(
            stack,
        )@.drop_last() && final(stack)@.last()@ == reverse_rep(old(stack)@.last()@),
        r is Err ==> (r->Err_0 == TinError::EmptyStack || r->Err_0 == TinError::NotAVector),
{
    broadcast use lemma_rep_seq;

    let top = match stack.pop() {
        Some(v) => v,
        None => {
            return Err(TinError::EmptyStack);
        },
    };
    let ghost trep = top@;
    match top {
        TinValue::Vector(v) => {
            let ghost vs = v@;
            let n = v.len();
            let mut out: Vec<TinValue> = Vec::new();
            let mut i: usize = 0;
            while i < n
                invariant
                    0 <= i <= n,
                    n == vs.len(),
                    v@ == vs,
                    out@.len() == i,
                    forall|j: int| 0 <= j < i ==> #[trigger] out@[j]@ == vs[vs.len() - 1 - j]@,
                decreases n - i,
            {
                out.push(clone_value(&v[n - 1 - i]));
                i += 1;
            }
            proof {
                assert forall|j: int|
                    0 <= j < rep_seq(out@).len() implies #[trigger] rep_seq(out@)[j] == rep_seq(
                    vs,
                ).reverse()[j] by {
                    assert(rep_seq(out@)[j] == rep_of(out@[j]));
                    assert(out@[j]@ == vs[vs.len() - 1 - j]@);
                    assert(rep_seq(vs)[vs.len() - 1 - j] == rep_of(vs[vs.len() - 1 - j]));
                }
                assert(rep_seq(out@) =~= rep_seq(vs).reverse());
            }
            stack.push(TinValue::Vector(out));
            Ok(())
        },
        TinValue::IntVector(v) => {
            let n = v.len();
            let mut out: Vec<i64> = Vec::new();
            let mut i: usize = 0;
            while i < n
                invariant
                    0 <= i <= n,
                    n == v@.len(),
                    out@.len() == i,
                    forall|j: int| 0 <= j < i ==> out@[j] == #[trigger] v@[v@.len() - 1 - j],
                decreases n - i,
            {
                out.push(v[n - 1 - i]);
                i += 1;
            }
            proof {
                assert(out@ =~= v@.reverse());
            }
            stack.push(TinValue::IntVector(out));
            Ok(())
        },
        TinValue::FloatVector(v) => {
            let n = v.len();
            let mut out: Vec<u64> = Vec::new();
            let mut i: usize = 0;
            while i < n
                invariant
                    0 <= i <= n,
                    n == v@.len(),
                    out@.len() == i,
                    forall|j: int| 0 <= j < i ==> out@[j] == #[trigger] v@[v@.len() - 1 - j],
                decreases n - i,
            {
                out.push(v[n - 1 - i]);
                i += 1;
            }
            proof {
                assert(out@ =~= v@.reverse());
            }
            stack.push(TinValue::FloatVector(out));
            Ok(())
        },
        other => {
            stack.push(other);
            Err(TinError::NotAVector)
        },
    }
}

/// A vector shape with its elements reversed.
pub open spec fn reverse_rep(r: RepVal) -> RepVal {
    match r {
        RepVal::Vector(s) => RepVal::Vector(s.reverse()),
        RepVal::IntVector(s) => RepVal::IntVector(s.reverse()),
        RepVal::FloatVector(s) => RepVal::FloatVector(s.reverse()),
        _ => r,
    }
}

/// Drops the first element of the vector on top (kept whole when empty).
pub fn op_drop_first(stack: &mut Vec<TinValue>) -> (r: Result<(), TinError>)
    ensures
        r is Ok <==> (old(stack)@.len() > 0 && rep_is_vec(old(stack)@.last()@)),
        r is Ok ==> final(stack)@.len() == old(stack)@.len() && final(stack)@.drop_last() == old(
            stack,
        )@.drop_last() && final(stack)@.last()@ == drop_first_rep(old(stack)@.last()@),
        r is Err ==> (r->Err_0 == TinError::EmptyStack || r->Err_0 == TinError::NotAVector),
{
    broadcast use lemma_rep_seq;

    let top = match stack.pop() {
        Some(v) => v,
        None => {
            return Err(TinError::EmptyStack);
        },
    };
    let ghost trep = top@;
    match top {
        TinValue::Vector(mut v) => {
            if v.len() > 0 {
                let ghost vs = v@;
                v.remove(0);
                proof {
                    assert(rep_seq(v@) =~= rep_seq(vs).drop_first());
                }
            }
            stack.push(TinValue::Vector(v));
            Ok(())
        },
        TinValue::IntVector(mut v) => {
            if v.len() > 0 {
                let ghost vs = v@;
                v.remove(0);
                proof {
                    assert(v@ =~= vs.drop_first());
                }
            }
            stack.push(TinValue::IntVector(v));
            Ok(())
        },
        TinValue::FloatVector(mut v) => {
            if v.len() > 0 {
                let ghost vs = v@;
                v.remove(0);
                proof {
                    assert(v@ =~= vs.drop_first());
                }
            }
            stack.push(TinValue::FloatVector(v));
            Ok(())
        },
        other => {
            stack.push(other);
            Err(TinError::NotAVector)
        },
    }
}

/// A vector shape without its first element (unchanged when empty).
pub open spec fn drop_first_rep(r: RepVal) -> RepVal {
    match r {
        RepVal::Vector(s) => if s.len() > 0 {
            RepVal::Vector(s.drop_first())
        } else {
            r
        },
        RepVal::IntVector(s) => if s.len() > 0 {
            RepVal::IntVector(s.drop_first())
        } else {
            r
        },
        RepVal::FloatVector(s) => if s.len() > 0 {
            RepVal::FloatVector(s.drop_first())
        } else {
            r
        },
        _ => r,
    }
}

/// Drops the last element of the vector on top (kept whole when empty).
pub fn op_drop_last(stack: &mut Vec<TinValue>) -> (r: Result<(), TinError>)
    ensures
        r is Ok <==> (old(stack)@.len() > 0 && rep_is_vec(old(stack)@.last()@)),
        r is Ok ==> final(stack)@.len() == old(stack)@.len() && final(stack)@.drop_last() == old(
            stack,
        )@.drop_last() && final(stack)@.last()@ == drop_last_rep(old(stack)@.last()@),
        r is Err ==> (r->Err_0 == TinError::EmptyStack || r->Err_0 == TinError::NotAVector),
{
    broadcast use lemma_rep_seq;

    let top = match stack.pop() {
        Some(v) => v,
        None => {
            return Err(TinError::EmptyStack);
        },
    };
    match top {
        TinValue::Vector(mut v) => {
            if v.len() > 0 {
                let ghost vs = v@;
                v.pop();
                proof {
                    assert(rep_seq(v@) =~= rep_seq(vs).drop_last());
                }
            }
            stack.push(TinValue::Vector(v));
            Ok(())
        },
        TinValue::IntVector(mut v) => {
            if v.len() > 0 {
                v.pop();
            }
            stack.push(TinValue::IntVector(v));
            Ok(())
        },
        TinValue::FloatVector(mut v) => {
            if v.len() > 0 {
                v.pop();
            }
            stack.push(TinValue::FloatVector(v));
            Ok(())
        },
        other => {
            stack.push(other);
            Err(TinError::NotAVector)
        },
    }
}

/// A vector shape without its last element (unchanged when empty).
pub open spec fn drop_last_rep(r: RepVal) -> RepVal {
    match r {
        RepVal::Vector(s) => if s.len() > 0 {
            RepVal::Vector(s.drop_last())
        } else {
            r
        },
        RepVal::IntVector(s) => if s.len() > 0 {
            RepVal::IntVector(s.drop_last())
        } else {
            r
        },
        RepVal::FloatVector(s) => if s.len() > 0 {
            RepVal::FloatVector(s.drop_last())
        } else {
            r
        },
        _ => r,
    }
}

} // verus!
