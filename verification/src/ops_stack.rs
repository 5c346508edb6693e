//! Stack-manipulation and scalar-shaped opcodes: each documents its
//! stack-shape precondition in its `ensures` (success exactly when the
//! shape fits) and pins the new stack exactly.
use vstd::prelude::*;

use crate::errors::TinError;
use crate::value::lemma_rep_seq;
use crate::value::rep_of;
use crate::value::rep_seq;
use crate::value::RepVal;
use crate::value::TinValue;
use crate::vector::clone_value;
use crate::vector::rep_elem;
use crate::vector::rep_len;

verus! {

broadcast use vstd::std_specs::vec::group_vec_axioms;

/// The mirrored elements of a mirrored vector shape.
pub open spec fn rep_items(r: RepVal) -> Seq<RepVal> {
    Seq::new(rep_len(r) as nat, |i: int| rep_elem(r, i))
}

/// Whether a mirror is a vector shape.
pub open spec fn rep_is_vec(r: RepVal) -> bool {
    match r {
        RepVal::Vector(_) => true,
        RepVal::IntVector(_) => true,
        RepVal::FloatVector(_) => true,
        _ => false,
    }
}

/// Drops the top of the stack.
pub fn op_drop(stack: &mut Vec<TinValue>) -> (r: Result<(), TinError>)
    ensures
        r is Ok <==> old(stack)@.len() > 0,
        r is Ok ==> final(stack)@ == old(stack)@.drop_last(),
        r is Err ==> r->Err_0 == TinError::EmptyStack && final(stack)@ == old(stack)@,
{
    match stack.pop() {
        Some(_) => Ok(()),
        None => Err(TinError::EmptyStack),
    }
}

/// Pushes a copy of the top of the stack.
pub fn op_dup(stack: &mut Vec<TinValue>) -> (r: Result<(), TinError>)
    ensures
        r is Ok <==> old(stack)@.len() > 0,
        r is Ok ==> final(stack)@.len() == old(stack)@.len() + 1 && final(stack)@.subrange(
            0,
            old(stack)@.len() as int,
        ) == old(stack)@ && final(stack)@.last()@ == old(stack)@.last()@,
        r is Err ==> r->Err_0 == TinError::EmptyStack && final(stack)@ == old(stack)@,
{
    if stack.len() == 0 {
        return Err(TinError::EmptyStack);
    }
    let top = clone_value(&stack[stack.len() - 1]);
    stack.push(top);
    proof {
        assert(final(stack)@.subrange(0, old(stack)@.len() as int) =~= old(stack)@);
    }
    Ok(())
}

/// Swaps the two top elements.
pub fn op_swap(stack: &mut Vec<TinValue>) -> (r: Result<(), TinError>)
    ensures
        r is Ok <==> old(stack)@.len() >= 2,
        r is Ok ==> final(stack)@ == old(stack)@.drop_last().drop_last().push(
            old(stack)@.last(),
        ).push(old(stack)@[old(stack)@.len() - 2]),
        r is Err ==> r->Err_0 == TinError::EmptyStack,
{
    let a = match stack.pop() {
        Some(v) => v,
        None => {
            return Err(TinError::EmptyStack);
        },
    };
    let b = match stack.pop() {
        Some(v) => v,
        None => {
            stack.push(a);
            return Err(TinError::EmptyStack);
        },
    };
    stack.push(a);
    stack.push(b);
    Ok(())
}

/// Pops a count and pushes a copy of the element that far below the new
/// top.
pub fn op_copy(stack: &mut Vec<TinValue>) -> (r: Result<(), TinError>)
    ensures
        r is Ok <==> (old(stack)@.len() > 0 && old(stack)@.last() is Int && {
            let n = old(stack)@.last()->Int_0;
            0 <= n < old(stack)@.len() - 1
        }),
        r is Ok ==> {
            let n = old(stack)@.last()->Int_0;
            let rest = old(stack)@.drop_last();
            final(stack)@.len() == rest.len() + 1 && final(stack)@.subrange(0, rest.len() as int)
                == rest && final(stack)@.last()@ == rest[rest.len() - 1 - n]@
        },
        r is Err ==> (r->Err_0 == TinError::EmptyStack || r->Err_0 == TinError::NotAnInt
            || r->Err_0 == TinError::IndexOutOfRange),
{
    let top = match stack.pop() {
        Some(v) => v,
        None => {
            return Err(TinError::EmptyStack);
        },
    };
    let n = match top {
        TinValue::Int(n) => n,
        other => {
            stack.push(other);
            return Err(TinError::NotAnInt);
        },
    };
    if n < 0 || (n as u64) >= (stack.len() as u64) {
        stack.push(TinValue::Int(n));
        return Err(TinError::IndexOutOfRange);
    }
    let item = clone_value(&stack[stack.len() - 1 - (n as usize)]);
    stack.push(item);
    proof {
        assert(final(stack)@.subrange(0, old(stack)@.drop_last().len() as int) =~= old(
            stack,
        )@.drop_last());
    }
    Ok(())
}

/// Pops a vector and pushes its elements, in order.
#[verifier::loop_isolation(false)]
pub fn op_unpack(stack: &mut Vec<TinValue>) -> (r: Result<(), TinError>)
    ensures
        r is Ok <==> (old(stack)@.len() > 0 && rep_is_vec(old(stack)@.last()@)),
        r is Ok ==> rep_seq(final(stack)@) =~= rep_seq(old(stack)@.drop_last()) + rep_items(
            old(stack)@.last()@,
        ),
        r is Err ==> (r->Err_0 == TinError::EmptyStack || r->Err_0 == TinError::NotAVector),
{
    broadcast use lemma_rep_seq;

    let top = match stack.pop() {
        Some(v) => v,
        None => {
            return Err(TinError::EmptyStack);
        },
    };
    let ghost base = stack@;
    let ghost trep = top@;
    match top {
        TinValue::Vector(mut v) => {
            let n = v.len();
            let mut i: usize = 0;
            while i < n
                invariant
                    0 <= i <= n,
                    n == v@.len(),
                    stack@.len() == base.len() + i,
                    stack@.subrange(0, base.len() as int) == base,
                    forall|j: int| 0 <= j < i ==> #[trigger] stack@[base.len() + j]@ == v@[j]@,
                    trep == RepVal::Vector(rep_seq(v@)),
                decreases n - i,
            {
                let e = clone_value(&v[i]);
                proof {
                    assert(e@ == v@[i as int]@);
                }
                stack.push(e);
                proof {
                    assert(stack@.subrange(0, base.len() as int) =~= base);
                }
                i += 1;
            }
            proof {
                assert forall|j: int|
                    0 <= j < rep_seq(stack@).len() implies #[trigger] rep_seq(stack@)[j] == (
                rep_seq(base) + rep_items(trep))[j] by {
                    assert(rep_seq(stack@)[j] == rep_of(stack@[j]));
                    if j < base.len() {
                        assert(stack@[j] == base[j]);
                    } else {
                        let jj = j - base.len();
                        assert(stack@[base.len() + jj]@ == v@[jj]@);
                        assert(rep_items(trep)[jj] == rep_elem(trep, jj));
                    }
                }
            }
            Ok(())
        },
        TinValue::IntVector(v) => {
            let n = v.len();
            let mut i: usize = 0;
            while i < n
                invariant
                    0 <= i <= n,
                    n == v@.len(),
                    stack@.len() == base.len() + i,
                    stack@.subrange(0, base.len() as int) == base,
                    forall|j: int|
                        0 <= j < i ==> stack@[base.len() + j] == TinValue::Int(#[trigger] v@[j]),
                    trep == RepVal::IntVector(v@),
                decreases n - i,
            {
                stack.push(TinValue::Int(v[i]));
                proof {
                    assert(stack@.subrange(0, base.len() as int) =~= base);
                }
                i += 1;
            }
            proof {
                assert forall|j: int|
                    0 <= j < rep_seq(stack@).len() implies #[trigger] rep_seq(stack@)[j] == (
                rep_seq(base) + rep_items(trep))[j] by {
                    assert(rep_seq(stack@)[j] == rep_of(stack@[j]));
                    if j < base.len() {
                        assert(stack@[j] == base[j]);
                    } else {
                        assert(rep_items(trep)[j - base.len()] == rep_elem(trep, j - base.len()));
                    }
                }
            }
            Ok(())
        },
        TinValue::FloatVector(v) => {
            let n = v.len();
            let mut i: usize = 0;
            while i < n
                invariant
                    0 <= i <= n,
                    n == v@.len(),
                    stack@.len() == base.len() + i,
                    stack@.subrange(0, base.len() as int) == base,
                    forall|j: int|
                        0 <= j < i ==> stack@[base.len() + j] == TinValue::Float(#[trigger] v@[j]),
                    trep == RepVal::FloatVector(v@),
                decreases n - i,
            {
                stack.push(TinValue::Float(v[i]));
                proof {
                    assert(stack@.subrange(0, base.len() as int) =~= base);
                }
                i += 1;
            }
            proof {
                assert forall|j: int|
                    0 <= j < rep_seq(stack@).len() implies #[trigger] rep_seq(stack@)[j] == (
                rep_seq(base) + rep_items(trep))[j] by {
                    assert(rep_seq(stack@)[j] == rep_of(stack@[j]));
                    if j < base.len() {
                        assert(stack@[j] == base[j]);
                    } else {
                        assert(rep_items(trep)[j - base.len()] == rep_elem(trep, j - base.len()));
                    }
                }
            }
            Ok(())
        },
        other => {
            stack.push(other);
            return Err(TinError::NotAVector);
        },
    }
}

/// Pops a scalar bound and pushes the integer vector `0 .. bound`.
#[verifier::loop_isolation(false)]
pub fn op_iota(stack: &mut Vec<TinValue>) -> (r: Result<(), TinError>)
    ensures
        r is Ok <==> (old(stack)@.len() > 0 && old(stack)@.last().is_scalar()),
        r is Ok ==> {
            let bound = iota_bound(old(stack)@.last()@);
            final(stack)@.len() == old(stack)@.len() && final(stack)@.drop_last() == old(
                stack,
            )@.drop_last() && final(stack)@.last()@ == RepVal::IntVector(
                Seq::new(
                    (if bound >= 0 {
                        bound
                    } else {
                        0
                    }) as nat,
                    |i: int| i as i64,
                ),
            )
        },
        r is Err ==> (r->Err_0 == TinError::EmptyStack || r->Err_0 == TinError::NotAnIntOrFloat),
{
    let top = match stack.pop() {
        Some(v) => v,
        None => {
            return Err(TinError::EmptyStack);
        },
    };
    let bound: i64 = match &top {
        TinValue::Int(n) => *n,
        TinValue::Float(b) => crate::fbits::fl_trunc_int(*b),
        _ => {
            stack.push(top);
            return Err(TinError::NotAnIntOrFloat);
        },
    };
    let mut out: Vec<i64> = Vec::new();
    let mut i: i64 = 0;
    while i < bound
        invariant
            0 <= i,
            bound > 0 ==> i <= bound,
            bound <= 0 ==> i == 0,
            out@.len() == i,
            forall|j: int| 0 <= j < i ==> out@[j] == j as i64,
        decreases bound - i,
    {
        out.push(i);
        i += 1;
    }
    proof {
        assert(bound == iota_bound(top@));
        let bd: int = if iota_bound(top@) >= 0 {
            iota_bound(top@)
        } else {
            0
        };
        assert(i == bd);
        assert(out@ =~= Seq::new(bd as nat, |j: int| j as i64));
    }
    stack.push(TinValue::IntVector(out));
    Ok(())
}

/// The iota bound a scalar denotes: the integer itself, or a float
/// truncated toward zero.
pub open spec fn iota_bound(r: RepVal) -> int {
    match r {
        RepVal::Int(n) => n as int,
        RepVal::Float(b) => crate::fbits::ftrunc_int(b) as int,
        _ => 0,
    }
}

/// Pops a value and pushes the one-element general vector holding it.
pub fn op_boxed(stack: &mut Vec<TinValue>) -> (r: Result<(), TinError>)
    ensures
        r is Ok <==> old(stack)@.len() > 0,
        r is Ok ==> final(stack)@.len() == old(stack)@.len() && final(stack)@.drop_last() == old(
            stack,
        )@.drop_last() && final(stack)@.last()@ == RepVal::Vector(seq![old(stack)@.last()@]),
        r is Err ==> r->Err_0 == TinError::EmptyStack,
{
    broadcast use lemma_rep_seq;

    let top = match stack.pop() {
        Some(v) => v,
        None => {
            return Err(TinError::EmptyStack);
        },
    };
    let ghost trep = top@;
    let boxed = vec![top];
    proof {
        assert(rep_seq(boxed@) =~= seq![trep]);
    }
    stack.push(TinValue::Vector(boxed));
    Ok(())
}

/// Pops a vector and pushes its length.
pub fn op_len(stack: &mut Vec<TinValue>) -> (r: Result<(), TinError>)
    ensures
        r is Ok <==> (old(stack)@.len() > 0 && rep_is_vec(old(stack)@.last()@)),
        r is Ok ==> final(stack)@.len() == old(stack)@.len() && final(stack)@.drop_last() == old(
            stack,
        )@.drop_last(),
        r is Ok && rep_len(old(stack)@.last()@) <= i64::MAX ==> final(stack)@.last()
            == TinValue::Int(rep_len(old(stack)@.last()@) as i64),
        r is Err ==> (r->Err_0 == TinError::EmptyStack || r->Err_0 == TinError::NotAVector),
{
    broadcast use lemma_rep_seq;

    let top = match stack.pop() {
        Some(v) => v,
        None => {
            return Err(TinError::EmptyStack);
        },
    };
    let ghost trep = top@;
    let n: usize = match &top {
        TinValue::Vector(v) => {
            proof {
                assert(trep == RepVal::Vector(rep_seq(v@)));
                assert(rep_len(trep) == v@.len());
            }
            v.len()
        },
        TinValue::IntVector(v) => v.len(),
        TinValue::FloatVector(v) => v.len(),
        _ => {
            stack.push(top);
            return Err(TinError::NotAVector);
        },
    };
    stack.push(TinValue::Int(#[verifier::truncate] (n as i64)));
    Ok(())
}

} // verus!
