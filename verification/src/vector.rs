//! Deep cloning of values and the growable vector accumulator.
//!
//! `TinVector` is the builder used by the capture, map and foreach
//! machinery: it starts homogeneous whenever it can and degrades to the
//! general representation the instant a heterogeneous element arrives,
//! never the reverse.
use vstd::prelude::*;

use crate::value::lemma_rep_seq;
use crate::value::rep_of;
use crate::value::rep_seq;
use crate::value::RepVal;
use crate::value::TinValue;

verus! {

broadcast use vstd::std_specs::vec::group_vec_axioms;

/// A deep copy: the mirror (representation included) is preserved.
#[verifier::loop_isolation(false)]
pub fn clone_value(v: &TinValue) -> (r: TinValue)
    ensures
        r@ == v@,
    decreases *v,
{
    broadcast use lemma_rep_seq;

    match v {
        TinValue::Int(n) => TinValue::Int(*n),
        TinValue::Float(b) => TinValue::Float(*b),
        TinValue::Vector(x) => {
            let n = x.len();
            let mut nv: Vec<TinValue> = Vec::new();
            let mut i: usize = 0;
            while i < n
                invariant
                    0 <= i <= n,
                    n == x@.len(),
                    nv@.len() == i,
                    forall|j: int| 0 <= j < i ==> nv@[j]@ == #[trigger] x@[j]@,
                decreases n - i,
            {
                nv.push(clone_value(&x[i]));
                i += 1;
            }
            proof {
                assert forall|j: int| 0 <= j < n implies rep_seq(nv@)[j] == rep_seq(x@)[j] by {
                    assert(rep_seq(nv@)[j] == rep_of(nv@[j]));
                    assert(rep_seq(x@)[j] == rep_of(x@[j]));
                    assert(nv@[j]@ == x@[j]@);
                }
                assert(rep_seq(nv@) =~= rep_seq(x@));
            }
            TinValue::Vector(nv)
        },
        TinValue::IntVector(x) => {
            let n = x.len();
            let mut nv: Vec<i64> = Vec::new();
            let mut i: usize = 0;
            while i < n
                invariant
                    0 <= i <= n,
                    n == x@.len(),
                    nv@ =~= x@.subrange(0, i as int),
                decreases n - i,
            {
                nv.push(x[i]);
                i += 1;
            }
            proof {
                assert(nv@ =~= x@);
            }
            TinValue::IntVector(nv)
        },
        TinValue::FloatVector(x) => {
            let n = x.len();
            let mut nv: Vec<u64> = Vec::new();
            let mut i: usize = 0;
            while i < n
                invariant
                    0 <= i <= n,
                    n == x@.len(),
                    nv@ =~= x@.subrange(0, i as int),
                decreases n - i,
            {
                nv.push(x[i]);
                i += 1;
            }
            proof {
                assert(nv@ =~= x@);
            }
            TinValue::FloatVector(nv)
        },
    }
}

impl Clone for TinValue {
    /// A deep copy: the mirror (representation included) is preserved.
    fn clone(&self) -> (r: Self)
        ensures
            r@ == self@,
    {
        clone_value(self)
    }
}

/// The growable accumulator behind capture, map and foreach.
#[derive(Debug)]
pub enum TinVector {
    Mixed(Vec<TinValue>),
    Int(Vec<i64>),
    Float(Vec<u64>),
}

impl View for TinVector {
    type V = RepVal;

    /// The mirror of the vector this accumulator holds.
    open spec fn view(&self) -> RepVal {
        match self {
            TinVector::Mixed(v) => RepVal::Vector(rep_seq(v@)),
            TinVector::Int(v) => RepVal::IntVector(v@),
            TinVector::Float(v) => RepVal::FloatVector(v@),
        }
    }
}

/// The length of a mirrored vector shape (0 for a scalar).
pub open spec fn rep_len(r: RepVal) -> nat {
    match r {
        RepVal::Vector(s) => s.len(),
        RepVal::IntVector(s) => s.len(),
        RepVal::FloatVector(s) => s.len(),
        _ => 0,
    }
}

/// The mirrored element `i` of a mirrored vector shape.
pub open spec fn rep_elem(r: RepVal, i: int) -> RepVal {
    match r {
        RepVal::Vector(s) => s[i],
        RepVal::IntVector(s) => RepVal::Int(s[i]),
        RepVal::FloatVector(s) => RepVal::Float(s[i]),
        _ => r,
    }
}

/// A whole sequence of elements pushed into an accumulator shape, in
/// order, under the same specialization rules as a single push.
pub open spec fn push_all_rep(acc: RepVal, s: Seq<RepVal>) -> RepVal
    decreases s.len(),
{
    if s.len() == 0 {
        acc
    } else {
        push_all_rep(push_rep(acc, s[0]), s.drop_first())
    }
}

/// Pushing a sequence and then one more element is pushing the
/// extended sequence.
pub proof fn lemma_push_all_snoc(acc: RepVal, s: Seq<RepVal>, e: RepVal)
    ensures
        push_all_rep(acc, s.push(e)) == push_rep(push_all_rep(acc, s), e),
    decreases s.len(),
{
    if s.len() == 0 {
        assert(s.push(e)[0] == e);
        assert(s.push(e).drop_first() =~= Seq::<RepVal>::empty());
        assert(push_all_rep(acc, s.push(e)) == push_all_rep(
            push_rep(acc, e),
            Seq::<RepVal>::empty(),
        ));
        assert(push_all_rep(push_rep(acc, e), Seq::<RepVal>::empty()) == push_rep(acc, e));
        assert(push_all_rep(acc, s) == acc);
    } else {
        assert(s.push(e)[0] == s[0]);
        assert(s.push(e).drop_first() =~= s.drop_first().push(e));
        lemma_push_all_snoc(push_rep(acc, s[0]), s.drop_first(), e);
        assert(push_all_rep(acc, s.push(e)) == push_all_rep(
            push_rep(acc, s[0]),
            s.drop_first().push(e),
        ));
        assert(push_all_rep(acc, s) == push_all_rep(push_rep(acc, s[0]), s.drop_first()));
    }
}

/// What pushing one element does to an accumulator: an empty general
/// accumulator specializes on its first scalar, a homogeneous one grows
/// while the element matches and degrades to the general representation
/// otherwise.
pub open spec fn push_rep(r: RepVal, e: RepVal) -> RepVal {
    match r {
        RepVal::Vector(s) => {
            if s.len() == 0 {
                match e {
                    RepVal::Int(n) => RepVal::IntVector(seq![n]),
                    RepVal::Float(b) => RepVal::FloatVector(seq![b]),
                    _ => RepVal::Vector(seq![e]),
                }
            } else {
                RepVal::Vector(s + seq![e])
            }
        },
        RepVal::IntVector(s) => {
            match e {
                RepVal::Int(n) => RepVal::IntVector(s + seq![n]),
                _ => RepVal::Vector(Seq::new(s.len(), |i: int| RepVal::Int(s[i])) + seq![e]),
            }
        },
        RepVal::FloatVector(s) => {
            match e {
                RepVal::Float(b) => RepVal::FloatVector(s + seq![b]),
                _ => RepVal::Vector(Seq::new(s.len(), |i: int| RepVal::Float(s[i])) + seq![e]),
            }
        },
        _ => r,
    }
}

impl TinVector {
    /// A fresh, still-general, empty accumulator.
    pub fn new() -> (r: TinVector)
        ensures
            r@ == RepVal::Vector(Seq::<RepVal>::empty()),
    {
        proof {
            assert(rep_seq(Seq::<TinValue>::empty()) =~= Seq::<RepVal>::empty());
        }
        TinVector::Mixed(Vec::new())
    }

    /// The element at `idx`, as a fresh value.
    pub fn get(&self, idx: usize) -> (r: TinValue)
        requires
            idx < rep_len(self@),
        ensures
            r@ == rep_elem(self@, idx as int),
    {
        broadcast use lemma_rep_seq;

        match self {
            TinVector::Mixed(v) => clone_value(&v[idx]),
            TinVector::Int(v) => TinValue::Int(v[idx]),
            TinVector::Float(v) => TinValue::Float(v[idx]),
        }
    }

    /// How many elements the accumulator holds.
    pub fn len(&self) -> (r: usize)
        ensures
            r == rep_len(self@),
    {
        broadcast use lemma_rep_seq;

        match self {
            TinVector::Mixed(v) => v.len(),
            TinVector::Int(v) => v.len(),
            TinVector::Float(v) => v.len(),
        }
    }

    /// Pushes one element, specializing or degrading as `push_rep` says.
    pub fn push(&mut self, elem: TinValue)
        ensures
            final(self)@ == push_rep(old(self)@, elem@),
    {
        broadcast use lemma_rep_seq;

        let ghost old_rep = self@;
        let ghost erep = elem@;
        match self {
            TinVector::Mixed(v) => {
                if v.len() == 0 {
                    match elem {
                        TinValue::Int(n) => {
                            let nv = vec![n];
                            proof {
                                assert(nv@ =~= seq![n]);
                            }
                            *self = TinVector::Int(nv);
                        },
                        TinValue::Float(b) => {
                            let nv = vec![b];
                            proof {
                                assert(nv@ =~= seq![b]);
                            }
                            *self = TinVector::Float(nv);
                        },
                        _ => {
                            v.push(elem);
                            proof {
                                assert(rep_seq(v@) =~= seq![erep]);
                                assert(old_rep->Vector_0 + seq![erep] =~= seq![erep]);
                            }
                        },
                    }
                } else {
                    let ghost vs = v@;
                    v.push(elem);
                    proof {
                        assert(rep_seq(v@) =~= rep_seq(vs) + seq![erep]);
                    }
                }
            },
            TinVector::Int(v) => {
                match elem {
                    TinValue::Int(n) => {
                        let ghost vs = v@;
                        v.push(n);
                        proof {
                            assert(v@ =~= vs + seq![n]);
                        }
                    },
                    _ => {
                        let mut inner: Vec<TinValue> = Vec::new();
                        let n = v.len();
                        let mut i: usize = 0;
                        while i < n
                            invariant
                                0 <= i <= n,
                                n == v@.len(),
                                inner@.len() == i,
                                forall|j: int| 0 <= j < i ==> #[trigger] inner@[j]@ == RepVal::Int(v@[j]),
                            decreases n - i,
                        {
                            inner.push(TinValue::Int(v[i]));
                            i += 1;
                        }
                        inner.push(elem);
                        proof {
                            let ghost tgt = Seq::new(v@.len(), |j: int| RepVal::Int(v@[j]))
                                + seq![erep];
                            assert forall|j: int| 0 <= j < inner@.len() implies rep_seq(inner@)[j]
                                == tgt[j] by {
                                assert(rep_seq(inner@)[j] == rep_of(inner@[j]));
                                if j < v@.len() {
                                    assert(inner@[j]@ == RepVal::Int(v@[j]));
                                } else {
                                    assert(inner@[j] == elem);
                                }
                            }
                            assert(rep_seq(inner@) =~= tgt);
                        }
                        *self = TinVector::Mixed(inner);
                    },
                }
            },
            TinVector::Float(v) => {
                match elem {
                    TinValue::Float(b) => {
                        let ghost vs = v@;
                        v.push(b);
                        proof {
                            assert(v@ =~= vs + seq![b]);
                        }
                    },
                    _ => {
                        let mut inner: Vec<TinValue> = Vec::new();
                        let n = v.len();
                        let mut i: usize = 0;
                        while i < n
                            invariant
                                0 <= i <= n,
                                n == v@.len(),
                                inner@.len() == i,
                                forall|j: int| 0 <= j < i ==> #[trigger] inner@[j]@ == RepVal::Float(v@[j]),
                            decreases n - i,
                        {
                            inner.push(TinValue::Float(v[i]));
                            i += 1;
                        }
                        inner.push(elem);
                        proof {
                            let ghost tgt = Seq::new(v@.len(), |j: int| RepVal::Float(v@[j]))
                                + seq![erep];
                            assert forall|j: int| 0 <= j < inner@.len() implies rep_seq(inner@)[j]
                                == tgt[j] by {
                                assert(rep_seq(inner@)[j] == rep_of(inner@[j]));
                                if j < v@.len() {
                                    assert(inner@[j]@ == RepVal::Float(v@[j]));
                                } else {
                                    assert(inner@[j] == elem);
                                }
                            }
                            assert(rep_seq(inner@) =~= tgt);
                        }
                        *self = TinVector::Mixed(inner);
                    },
                }
            },
        }
    }

    /// Seals the accumulator into a value of the matching representation.
    pub fn to_value(self) -> (r: TinValue)
        ensures
            r@ == self@,
    {
        match self {
            TinVector::Mixed(v) => TinValue::Vector(v),
            TinVector::Int(v) => TinValue::IntVector(v),
            TinVector::Float(v) => TinValue::FloatVector(v),
        }
    }
}

} // verus!
