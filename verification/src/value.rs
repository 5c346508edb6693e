//! The value model: a tagged scalar/vector lattice with two homogeneous
//! vector specializations.
//!
//! A value's view (`@`) is `RepVal`, a ghost mirror of the exact
//! representation, because the representation is observable (a float
//! vector sums through the SIMD kernel, a general vector through the
//! sequential fold). `abs` erases the boxing differences to `AbsVal`,
//! the purely numeric model on which equality, order and truthiness are
//! defined.
//!
//! A 64-bit float is carried as its IEEE-754 bit pattern (`u64`); the
//! numeric order of non-NaN patterns is captured exactly by `fkey`, so
//! comparisons and truthiness of floats are ordinary verified integer
//! logic on bits.
use vstd::prelude::*;

verus! {

broadcast use vstd::std_specs::vec::group_vec_axioms;

/// A runtime value: a 64-bit integer, a 64-bit float (by bit pattern),
/// a general vector, or one of the two homogeneous specializations.
#[derive(Debug)]
pub enum TinValue {
    Int(i64),
    Float(u64),
    Vector(Vec<TinValue>),
    IntVector(Vec<i64>),
    FloatVector(Vec<u64>),
}

/// The ghost mirror of a value, representation included.
pub enum RepVal {
    Int(i64),
    Float(u64),
    Vector(Seq<RepVal>),
    IntVector(Seq<i64>),
    FloatVector(Seq<u64>),
}

/// The numeric shape of a value: boxing differences between the three
/// vector representations are erased, so two values have one model
/// exactly when they only differ by boxing.
pub enum AbsVal {
    Int(i64),
    Float(u64),
    Vect(Seq<AbsVal>),
}

/// The ghost mirror of a value.
pub open spec fn rep_of(v: TinValue) -> RepVal
    decreases v,
{
    match v {
        TinValue::Int(n) => RepVal::Int(n),
        TinValue::Float(b) => RepVal::Float(b),
        TinValue::Vector(v) => RepVal::Vector(rep_seq(v@)),
        TinValue::IntVector(v) => RepVal::IntVector(v@),
        TinValue::FloatVector(v) => RepVal::FloatVector(v@),
    }
}

/// The ghost mirrors of a sequence of values, elementwise.
pub open spec fn rep_seq(s: Seq<TinValue>) -> Seq<RepVal>
    decreases s, 0int,
{
    if s.len() == 0 {
        Seq::empty()
    } else {
        seq![rep_of(s[0])] + rep_seq(s.drop_first())
    }
}

/// `rep_seq` maps elementwise: same length, the mirror of each element.
pub broadcast proof fn lemma_rep_seq(s: Seq<TinValue>)
    ensures
        (#[trigger] rep_seq(s)).len() == s.len(),
        forall|i: int| 0 <= i < s.len() ==> rep_seq(s)[i] == rep_of(s[i]),
    decreases s.len(),
{
    if s.len() > 0 {
        lemma_rep_seq(s.drop_first());
        assert forall|i: int| 0 <= i < s.len() implies rep_seq(s)[i] == rep_of(s[i]) by {
            if i > 0 {
                assert(s.drop_first()[i - 1] == s[i]);
            }
        }
    }
}

impl View for TinValue {
    type V = RepVal;

    /// The ghost mirror of this value.
    open spec fn view(&self) -> RepVal {
        rep_of(*self)
    }
}

/// The numeric model of a mirrored value: boxing erased.
pub open spec fn abs(r: RepVal) -> AbsVal
    decreases r,
{
    match r {
        RepVal::Int(n) => AbsVal::Int(n),
        RepVal::Float(b) => AbsVal::Float(b),
        RepVal::Vector(s) => AbsVal::Vect(abs_seq(s)),
        RepVal::IntVector(s) => AbsVal::Vect(Seq::new(s.len(), |i: int| AbsVal::Int(s[i]))),
        RepVal::FloatVector(s) => AbsVal::Vect(Seq::new(s.len(), |i: int| AbsVal::Float(s[i]))),
    }
}

/// The numeric models of a sequence of mirrored values, elementwise.
pub open spec fn abs_seq(s: Seq<RepVal>) -> Seq<AbsVal>
    decreases s, 0int,
{
    if s.len() == 0 {
        Seq::empty()
    } else {
        seq![abs(s[0])] + abs_seq(s.drop_first())
    }
}

/// `abs_seq` maps elementwise: same length, the model of each element.
pub broadcast proof fn lemma_abs_seq(s: Seq<RepVal>)
    ensures
        (#[trigger] abs_seq(s)).len() == s.len(),
        forall|i: int| 0 <= i < s.len() ==> abs_seq(s)[i] == abs(s[i]),
    decreases s.len(),
{
    if s.len() > 0 {
        lemma_abs_seq(s.drop_first());
        assert forall|i: int| 0 <= i < s.len() implies abs_seq(s)[i] == abs(s[i]) by {
            if i > 0 {
                assert(s.drop_first()[i - 1] == s[i]);
            }
        }
    }
}

impl TinValue {
    /// The numeric model of this value.
    pub open spec fn am(&self) -> AbsVal {
        abs(self@)
    }

    /// Whether this value is one of the three vector representations.
    pub open spec fn is_vector_rep(&self) -> bool {
        match self {
            TinValue::Int(_) => false,
            TinValue::Float(_) => false,
            _ => true,
        }
    }

    /// Whether this value is a scalar.
    pub open spec fn is_scalar(&self) -> bool {
        !self.is_vector_rep()
    }

    /// Truthiness of this value: non-zero scalar or non-empty vector.
    pub fn truthy(&self) -> (r: bool)
        ensures
            r == truthy_abs(self.am()),
    {
        broadcast use lemma_rep_seq, lemma_abs_seq;

        match self {
            TinValue::Int(n) => *n != 0,
            TinValue::Float(b) => (*b & 0x7fff_ffff_ffff_ffff) != 0,
            TinValue::Vector(v) => v.len() != 0,
            TinValue::IntVector(v) => v.len() != 0,
            TinValue::FloatVector(v) => v.len() != 0,
        }
    }
}

/// Magnitude bits of a float pattern (everything but the sign).
pub open spec fn fmag(b: u64) -> u64 {
    b & 0x7fff_ffff_ffff_ffff
}

/// True when the pattern encodes a NaN.
pub open spec fn is_nan_bits(b: u64) -> bool {
    fmag(b) > 0x7ff0_0000_0000_0000
}

/// Order key of a float pattern: for non-NaN patterns `fkey(a) <= fkey(b)`
/// holds exactly when the encoded doubles compare `<=`, and the two
/// zeroes share the key 0; NaN patterns sort past the infinity of their
/// sign, which totalizes the order.
pub open spec fn fkey(b: u64) -> int {
    if b >= 0x8000_0000_0000_0000 {
        -(fmag(b) as int)
    } else {
        fmag(b) as int
    }
}

/// A float is truthy unless it is a zero; NaN is truthy.
pub open spec fn truthy_bits(b: u64) -> bool {
    fmag(b) != 0
}

/// What the primitive cast of an `i64` to a 64-bit float returns, as bits.
pub uninterp spec fn i2f_bits(i: i64) -> u64;

/// Numeric equality of two float patterns: NaN equals nothing.
pub open spec fn feq_bits(a: u64, b: u64) -> bool {
    &&& !is_nan_bits(a)
    &&& !is_nan_bits(b)
    &&& fkey(a) == fkey(b)
}

/// Numeric strict order of two float patterns: false around NaN.
pub open spec fn flt_bits(a: u64, b: u64) -> bool {
    &&& !is_nan_bits(a)
    &&& !is_nan_bits(b)
    &&& fkey(a) < fkey(b)
}

/// Numeric order-or-equality of two float patterns: false around NaN.
pub open spec fn fle_bits(a: u64, b: u64) -> bool {
    &&& !is_nan_bits(a)
    &&& !is_nan_bits(b)
    &&& fkey(a) <= fkey(b)
}

/// Numeric equality over the model: integers and floats compare across
/// kinds (the integer goes through the float cast), vectors compare
/// elementwise with equal lengths, and a scalar never equals a vector.
pub open spec fn eq_abs(a: AbsVal, b: AbsVal) -> bool
    decreases a, b,
{
    match (a, b) {
        (AbsVal::Int(x), AbsVal::Int(y)) => x == y,
        (AbsVal::Int(x), AbsVal::Float(y)) => feq_bits(i2f_bits(x), y),
        (AbsVal::Float(x), AbsVal::Int(y)) => feq_bits(x, i2f_bits(y)),
        (AbsVal::Float(x), AbsVal::Float(y)) => feq_bits(x, y),
        (AbsVal::Vect(x), AbsVal::Vect(y)) => x.len() == y.len() && (forall|i: int|
            0 <= i < x.len() ==> eq_abs(#[trigger] x[i], y[i])),
        _ => false,
    }
}

/// Sign of an integer difference, the shape every comparison returns.
pub open spec fn sgn(d: int) -> int {
    if d < 0 {
        -1
    } else if d == 0 {
        0
    } else {
        1
    }
}

/// Total comparison of two scalars (model level): integers compare as
/// integers, any pairing with a float compares by `fkey` after casting
/// the integer.
pub open spec fn cmp_scalar_abs(a: AbsVal, b: AbsVal) -> int {
    match (a, b) {
        (AbsVal::Int(x), AbsVal::Int(y)) => sgn(x - y),
        (AbsVal::Int(x), AbsVal::Float(y)) => sgn(fkey(i2f_bits(x)) - fkey(y)),
        (AbsVal::Float(x), AbsVal::Int(y)) => sgn(fkey(x) - fkey(i2f_bits(y))),
        (AbsVal::Float(x), AbsVal::Float(y)) => sgn(fkey(x) - fkey(y)),
        _ => 0,
    }
}

/// Total comparison over the model, -1 / 0 / 1: scalars numerically, a
/// vector above every scalar, vectors elementwise over the common prefix
/// with length as the tiebreak.
pub open spec fn cmp_abs(a: AbsVal, b: AbsVal) -> int
    decreases a, b, 0int,
{
    match (a, b) {
        (AbsVal::Vect(x), AbsVal::Vect(y)) => cmp_seq_at(x, y, 0),
        (AbsVal::Vect(x), _) => 1,
        (_, AbsVal::Vect(y)) => -1,
        _ => cmp_scalar_abs(a, b),
    }
}

/// Lexicographic comparison of two model sequences from position `i` on.
pub open spec fn cmp_seq_at(x: Seq<AbsVal>, y: Seq<AbsVal>, i: int) -> int
    decreases x, y, (if x.len() <= y.len() { x.len() } else { y.len() }) - i,
{
    let n = if x.len() <= y.len() {
        x.len() as int
    } else {
        y.len() as int
    };
    if i < 0 || i >= n {
        sgn(x.len() - y.len())
    } else if cmp_abs(x[i], y[i]) != 0 {
        cmp_abs(x[i], y[i])
    } else {
        cmp_seq_at(x, y, i + 1)
    }
}

/// Whether every scalar reachable in a numeric model is an integer.
pub open spec fn int_only(a: AbsVal) -> bool
    decreases a,
{
    match a {
        AbsVal::Int(_) => true,
        AbsVal::Float(_) => false,
        AbsVal::Vect(s) => forall|i: int| 0 <= i < s.len() ==> int_only(#[trigger] s[i]),
    }
}

/// Whether every scalar reachable in a numeric model is a float or an
/// integer of magnitude at most 2^53. On such values the cast of an
/// integer to a double is exact, so the cross-kind comparison embeds
/// everything consistently into one number line.
pub open spec fn num_small(a: AbsVal) -> bool
    decreases a,
{
    match a {
        AbsVal::Int(n) => -0x20_0000_0000_0000 <= n <= 0x20_0000_0000_0000,
        AbsVal::Float(_) => true,
        AbsVal::Vect(s) => forall|i: int| 0 <= i < s.len() ==> num_small(#[trigger] s[i]),
    }
}

/// Truthiness over the model: a non-zero scalar or a non-empty vector.
pub open spec fn truthy_abs(a: AbsVal) -> bool {
    match a {
        AbsVal::Int(n) => n != 0,
        AbsVal::Float(b) => truthy_bits(b),
        AbsVal::Vect(s) => s.len() != 0,
    }
}

/// Scalar numeric equality; both arguments must be scalars.
fn eq_scalar(a: &TinValue, b: &TinValue) -> (r: bool)
    requires
        a.is_scalar(),
        b.is_scalar(),
    ensures
        r == eq_abs(a.am(), b.am()),
{
    match (a, b) {
        (TinValue::Int(x), TinValue::Int(y)) => *x == *y,
        (TinValue::Int(x), TinValue::Float(y)) => crate::fbits::fl_eq(
            crate::fbits::fl_of_int(*x),
            *y,
        ),
        (TinValue::Float(x), TinValue::Int(y)) => crate::fbits::fl_eq(
            *x,
            crate::fbits::fl_of_int(*y),
        ),
        (TinValue::Float(x), TinValue::Float(y)) => crate::fbits::fl_eq(*x, *y),
        _ => false,
    }
}

/// Numeric equality, `r == eq_abs(a.am(), b.am())`, over every pairing of
/// the five representations.
#[verifier::loop_isolation(false)]
pub fn eq_value(a: &TinValue, b: &TinValue) -> (r: bool)
    ensures
        r == eq_abs(a.am(), b.am()),
    decreases *a,
{
    broadcast use lemma_rep_seq, lemma_abs_seq;

    match (a, b) {
        (TinValue::Int(_), TinValue::Int(_)) => eq_scalar(a, b),
        (TinValue::Int(_), TinValue::Float(_)) => eq_scalar(a, b),
        (TinValue::Float(_), TinValue::Int(_)) => eq_scalar(a, b),
        (TinValue::Float(_), TinValue::Float(_)) => eq_scalar(a, b),
        (TinValue::Vector(x), TinValue::Vector(y)) => {
            let ghost s1 = abs_seq(rep_seq(x@));
            let ghost s2 = abs_seq(rep_seq(y@));
            proof {
                lemma_vect_eq_iff(s1, s2);
            }
            if x.len() != y.len() {
                return false;
            }
            let n = x.len();
            let mut i: usize = 0;
            while i < n
                invariant
                    0 <= i <= n,
                    n == x@.len(),
                    n == y@.len(),
                    forall|j: int| 0 <= j < i ==> eq_abs(#[trigger] s1[j], s2[j]),
                decreases n - i,
            {
                if !eq_value(&x[i], &y[i]) {
                    proof {
                        assert(s1[i as int] == x@[i as int].am());
                        assert(s2[i as int] == y@[i as int].am());
                    }
                    return false;
                }
                i += 1;
            }
            true
        },
        (TinValue::Vector(x), TinValue::IntVector(y)) => eq_vec_iv(x, y),
        (TinValue::IntVector(y), TinValue::Vector(x)) => {
            let r = eq_vec_iv(x, y);
            proof {
                lemma_eq_abs_sym(a.am(), b.am());
            }
            r
        },
        (TinValue::Vector(x), TinValue::FloatVector(y)) => eq_vec_fv(x, y),
        (TinValue::FloatVector(y), TinValue::Vector(x)) => {
            let r = eq_vec_fv(x, y);
            proof {
                lemma_eq_abs_sym(a.am(), b.am());
            }
            r
        },
        (TinValue::IntVector(x), TinValue::IntVector(y)) => {
            let ghost s1 = Seq::new(x@.len(), |j: int| AbsVal::Int(x@[j]));
            let ghost s2 = Seq::new(y@.len(), |j: int| AbsVal::Int(y@[j]));
            proof {
                lemma_vect_eq_iff(s1, s2);
            }
            if x.len() != y.len() {
                return false;
            }
            let n = x.len();
            let mut i: usize = 0;
            while i < n
                invariant
                    0 <= i <= n,
                    n == x@.len() == y@.len(),
                    forall|j: int| 0 <= j < i ==> eq_abs(#[trigger] s1[j], s2[j]),
                decreases n - i,
            {
                proof {
                    assert(s1[i as int] == AbsVal::Int(x@[i as int]));
                    assert(s2[i as int] == AbsVal::Int(y@[i as int]));
                }
                if x[i] != y[i] {
                    return false;
                }
                i += 1;
            }
            true
        },
        (TinValue::IntVector(x), TinValue::FloatVector(y)) => eq_iv_fv(x, y),
        (TinValue::FloatVector(y), TinValue::IntVector(x)) => {
            let r = eq_iv_fv(x, y);
            proof {
                lemma_eq_abs_sym(a.am(), b.am());
            }
            r
        },
        (TinValue::FloatVector(x), TinValue::FloatVector(y)) => {
            let ghost s1 = Seq::new(x@.len(), |j: int| AbsVal::Float(x@[j]));
            let ghost s2 = Seq::new(y@.len(), |j: int| AbsVal::Float(y@[j]));
            proof {
                lemma_vect_eq_iff(s1, s2);
            }
            if x.len() != y.len() {
                return false;
            }
            let n = x.len();
            let mut i: usize = 0;
            while i < n
                invariant
                    0 <= i <= n,
                    n == x@.len() == y@.len(),
                    forall|j: int| 0 <= j < i ==> eq_abs(#[trigger] s1[j], s2[j]),
                decreases n - i,
            {
                proof {
                    assert(s1[i as int] == AbsVal::Float(x@[i as int]));
                    assert(s2[i as int] == AbsVal::Float(y@[i as int]));
                }
                if !crate::fbits::fl_eq(x[i], y[i]) {
                    return false;
                }
                i += 1;
            }
            true
        },
        _ => false,
    }
}

/// A general vector equals an integer vector when the lengths agree and
/// each element equals the corresponding integer scalar.
#[verifier::loop_isolation(false)]
fn eq_vec_iv(x: &Vec<TinValue>, y: &Vec<i64>) -> (r: bool)
    ensures
        r == eq_abs(
            AbsVal::Vect(abs_seq(rep_seq(x@))),
            AbsVal::Vect(Seq::new(y@.len(), |j: int| AbsVal::Int(y@[j]))),
        ),
{
    broadcast use lemma_rep_seq, lemma_abs_seq;

    let ghost s1 = abs_seq(rep_seq(x@));
    let ghost s2 = Seq::new(y@.len(), |j: int| AbsVal::Int(y@[j]));
    proof {
        lemma_vect_eq_iff(s1, s2);
    }
    if x.len() != y.len() {
        return false;
    }
    let n = x.len();
    let mut i: usize = 0;
    while i < n
        invariant
            0 <= i <= n,
            n == x@.len() == y@.len(),
            forall|j: int| 0 <= j < i ==> eq_abs(#[trigger] s1[j], s2[j]),
        decreases n - i,
    {
        let e = match &x[i] {
            TinValue::Int(v) => *v == y[i],
            TinValue::Float(v) => crate::fbits::fl_eq(*v, crate::fbits::fl_of_int(y[i])),
            _ => false,
        };
        proof {
            assert(s1[i as int] == x@[i as int].am());
            assert(s2[i as int] == AbsVal::Int(y@[i as int]));
        }
        if !e {
            return false;
        }
        i += 1;
    }
    true
}

/// A general vector equals a float vector when the lengths agree and each
/// element equals the corresponding float scalar.
#[verifier::loop_isolation(false)]
fn eq_vec_fv(x: &Vec<TinValue>, y: &Vec<u64>) -> (r: bool)
    ensures
        r == eq_abs(
            AbsVal::Vect(abs_seq(rep_seq(x@))),
            AbsVal::Vect(Seq::new(y@.len(), |j: int| AbsVal::Float(y@[j]))),
        ),
{
    broadcast use lemma_rep_seq, lemma_abs_seq;

    let ghost s1 = abs_seq(rep_seq(x@));
    let ghost s2 = Seq::new(y@.len(), |j: int| AbsVal::Float(y@[j]));
    proof {
        lemma_vect_eq_iff(s1, s2);
    }
    if x.len() != y.len() {
        return false;
    }
    let n = x.len();
    let mut i: usize = 0;
    while i < n
        invariant
            0 <= i <= n,
            n == x@.len() == y@.len(),
            forall|j: int| 0 <= j < i ==> eq_abs(#[trigger] s1[j], s2[j]),
        decreases n - i,
    {
        let e = match &x[i] {
            TinValue::Int(v) => crate::fbits::fl_eq(crate::fbits::fl_of_int(*v), y[i]),
            TinValue::Float(v) => crate::fbits::fl_eq(*v, y[i]),
            _ => false,
        };
        proof {
            assert(s1[i as int] == x@[i as int].am());
            assert(s2[i as int] == AbsVal::Float(y@[i as int]));
        }
        if !e {
            return false;
        }
        i += 1;
    }
    true
}

/// An integer vector equals a float vector elementwise through the cast.
#[verifier::loop_isolation(false)]
fn eq_iv_fv(x: &Vec<i64>, y: &Vec<u64>) -> (r: bool)
    ensures
        r == eq_abs(
            AbsVal::Vect(Seq::new(x@.len(), |j: int| AbsVal::Int(x@[j]))),
            AbsVal::Vect(Seq::new(y@.len(), |j: int| AbsVal::Float(y@[j]))),
        ),
{
    let ghost s1 = Seq::new(x@.len(), |j: int| AbsVal::Int(x@[j]));
    let ghost s2 = Seq::new(y@.len(), |j: int| AbsVal::Float(y@[j]));
    proof {
        lemma_vect_eq_iff(s1, s2);
    }
    if x.len() != y.len() {
        return false;
    }
    let n = x.len();
    let mut i: usize = 0;
    while i < n
        invariant
            0 <= i <= n,
            n == x@.len() == y@.len(),
            forall|j: int| 0 <= j < i ==> eq_abs(#[trigger] s1[j], s2[j]),
        decreases n - i,
    {
        proof {
            assert(s1[i as int] == AbsVal::Int(x@[i as int]));
            assert(s2[i as int] == AbsVal::Float(y@[i as int]));
        }
        if !crate::fbits::fl_eq(crate::fbits::fl_of_int(x[i]), y[i]) {
            return false;
        }
        i += 1;
    }
    true
}

/// Equality of two model vectors unfolded to lengths and elements.
pub proof fn lemma_vect_eq_iff(s1: Seq<AbsVal>, s2: Seq<AbsVal>)
    ensures
        eq_abs(AbsVal::Vect(s1), AbsVal::Vect(s2)) <==> (s1.len() == s2.len() && (forall|i: int|
            0 <= i < s1.len() ==> eq_abs(#[trigger] s1[i], s2[i]))),
{
}

/// Numeric equality over the model is symmetric.
pub proof fn lemma_eq_abs_sym(a: AbsVal, b: AbsVal)
    ensures
        eq_abs(a, b) == eq_abs(b, a),
    decreases a, b,
{
    match (a, b) {
        (AbsVal::Vect(x), AbsVal::Vect(y)) => {
            if x.len() == y.len() {
                assert forall|i: int| 0 <= i < x.len() implies eq_abs(#[trigger] x[i], y[i])
                    == eq_abs(y[i], x[i]) by {
                    lemma_eq_abs_sym(x[i], y[i]);
                }
            }
        },
        _ => {},
    }
}

impl PartialEq for TinValue {
    /// Numeric equality, as values compare in the language.
    fn eq(&self, other: &Self) -> (r: bool) {
        eq_value(self, other)
    }
}

impl vstd::std_specs::cmp::PartialEqSpecImpl for TinValue {
    open spec fn obeys_eq_spec() -> bool {
        true
    }

    open spec fn eq_spec(&self, other: &Self) -> bool {
        eq_abs(self.am(), other.am())
    }
}

} // verus!
