//! The display forms of a value: the bracketed numeric text that print
//! emits, and the character-code reading used by the string printers.
use vstd::prelude::*;

use crate::errors::TinError;
use crate::numtext::char_of_u32;
use crate::numtext::cp_char;
use crate::numtext::chars_to_string;
use crate::numtext::dec_i64;
use crate::numtext::fl_format_5;
use crate::numtext::fl_format_plain;
use crate::numtext::fmt_float_5;
use crate::numtext::fmt_float_plain;
use crate::numtext::fmt_i64;
use crate::value::lemma_rep_seq;
use crate::value::rep_seq;
use crate::value::RepVal;
use crate::value::TinValue;

verus! {

broadcast use vstd::std_specs::vec::group_vec_axioms;

/// The display text of a mirrored value: integers in decimal, floats
/// with five decimal places, vectors bracketed with comma-separated
/// elements (floats in a homogeneous float vector print in their plain
/// shortest form, elsewhere with five decimal places).
pub open spec fn disp(r: RepVal) -> Seq<char>
    decreases r, 0int,
{
    match r {
        RepVal::Int(n) => dec_i64(n),
        RepVal::Float(b) => fmt_float_5(b),
        RepVal::Vector(s) => seq!['['] + disp_items(s) + seq![']'],
        RepVal::IntVector(s) => seq!['['] + disp_ints(s) + seq![']'],
        RepVal::FloatVector(s) => seq!['['] + disp_floats(s) + seq![']'],
    }
}

/// Comma-separated display of a sequence of mirrored values.
pub open spec fn disp_items(s: Seq<RepVal>) -> Seq<char>
    decreases s, 1int,
{
    if s.len() == 0 {
        Seq::empty()
    } else if s.len() == 1 {
        disp(s[0])
    } else {
        disp_items(s.drop_last()) + seq![',', ' '] + disp(s.last())
    }
}

/// Comma-separated decimal display of integers.
pub open spec fn disp_ints(s: Seq<i64>) -> Seq<char>
    decreases s.len(),
{
    if s.len() == 0 {
        Seq::empty()
    } else if s.len() == 1 {
        dec_i64(s[0])
    } else {
        disp_ints(s.drop_last()) + seq![',', ' '] + dec_i64(s.last())
    }
}

/// Comma-separated plain display of float patterns.
pub open spec fn disp_floats(s: Seq<u64>) -> Seq<char>
    decreases s.len(),
{
    if s.len() == 0 {
        Seq::empty()
    } else if s.len() == 1 {
        fmt_float_plain(s[0])
    } else {
        disp_floats(s.drop_last()) + seq![',', ' '] + fmt_float_plain(s.last())
    }
}

/// The display text of a value, as characters.
#[verifier::loop_isolation(false)]
pub fn disp_value(v: &TinValue) -> (r: Vec<char>)
    ensures
        r@ == disp(v@),
    decreases *v, 1int,
{
    broadcast use lemma_rep_seq;

    match v {
        TinValue::Int(n) => fmt_i64(*n),
        TinValue::Float(b) => fl_format_5(*b),
        TinValue::Vector(s) => {
            proof {
                assert(v@ == RepVal::Vector(rep_seq(s@)));
            }
            let ghost rs = rep_seq(s@);
            let mut out: Vec<char> = Vec::new();
            out.push('[');
            let n = s.len();
            let mut i: usize = 0;
            while i < n
                invariant
                    0 <= i <= n,
                    n == rs.len(),
                    out@ == seq!['['] + disp_items(rs.subrange(0, i as int)),
                decreases n - i,
            {
                if i > 0 {
                    out.push(',');
                    out.push(' ');
                }
                let mut piece = disp_value(&s[i]);
                out.append(&mut piece);
                proof {
                    let pre = rs.subrange(0, i as int);
                    let cur = rs.subrange(0, i + 1);
                    assert(cur.drop_last() =~= pre);
                    assert(cur.last() == rs[i as int]);
                    assert(s@[i as int]@ == rs[i as int]);
                    if i == 0 {
                        assert(disp_items(cur) == disp(rs[0]));
                        assert(out@ =~= seq!['['] + disp_items(cur));
                    } else {
                        assert(disp_items(cur) == disp_items(pre) + seq![',', ' '] + disp(
                            rs[i as int],
                        ));
                        assert(out@ =~= seq!['['] + disp_items(cur));
                    }
                }
                i += 1;
            }
            out.push(']');
            proof {
                assert(rs.subrange(0, rs.len() as int) =~= rs);
                assert(out@ =~= seq!['['] + disp_items(rs) + seq![']']);
            }
            out
        },
        TinValue::IntVector(s) => {
            proof {
                assert(v@ == RepVal::IntVector(s@));
            }
            let mut out: Vec<char> = Vec::new();
            out.push('[');
            let n = s.len();
            let mut i: usize = 0;
            while i < n
                invariant
                    0 <= i <= n,
                    n == s@.len(),
                    out@ == seq!['['] + disp_ints(s@.subrange(0, i as int)),
                decreases n - i,
            {
                if i > 0 {
                    out.push(',');
                    out.push(' ');
                }
                let mut piece = fmt_i64(s[i]);
                out.append(&mut piece);
                proof {
                    let pre = s@.subrange(0, i as int);
                    let cur = s@.subrange(0, i + 1);
                    assert(cur.drop_last() =~= pre);
                    assert(cur.last() == s@[i as int]);
                    assert(out@ =~= seq!['['] + disp_ints(cur));
                }
                i += 1;
            }
            out.push(']');
            proof {
                assert(s@.subrange(0, s@.len() as int) =~= s@);
                assert(out@ =~= seq!['['] + disp_ints(s@) + seq![']']);
            }
            out
        },
        TinValue::FloatVector(s) => {
            proof {
                assert(v@ == RepVal::FloatVector(s@));
            }
            let mut out: Vec<char> = Vec::new();
            out.push('[');
            let n = s.len();
            let mut i: usize = 0;
            while i < n
                invariant
                    0 <= i <= n,
                    n == s@.len(),
                    out@ == seq!['['] + disp_floats(s@.subrange(0, i as int)),
                decreases n - i,
            {
                if i > 0 {
                    out.push(',');
                    out.push(' ');
                }
                let mut piece = fl_format_plain(s[i]);
                out.append(&mut piece);
                proof {
                    let pre = s@.subrange(0, i as int);
                    let cur = s@.subrange(0, i + 1);
                    assert(cur.drop_last() =~= pre);
                    assert(cur.last() == s@[i as int]);
                    assert(out@ =~= seq!['['] + disp_floats(cur));
                }
                i += 1;
            }
            out.push(']');
            proof {
                assert(s@.subrange(0, s@.len() as int) =~= s@);
                assert(out@ =~= seq!['['] + disp_floats(s@) + seq![']']);
            }
            out
        },
    }
}

/// Whether a code point names a character.
pub open spec fn valid_cp(n: u32) -> bool {
    n < 0xD800 || (0xE000 <= n && n < 0x11_0000)
}

/// The character-code reading of a mirrored value: an integer is one
/// character (by code point, the integer truncated to 32 bits), an
/// integer vector concatenates, and everything else is unreadable.
pub open spec fn mapped(r: RepVal) -> Option<Seq<char>>
    decreases r, 1int,
{
    match r {
        RepVal::Int(n) => mapped_int(n),
        RepVal::Vector(s) => mapped_items(s),
        RepVal::IntVector(s) => mapped_ints(s),
        _ => None,
    }
}

/// The concatenated character-code reading of a sequence of mirrors.
pub open spec fn mapped_items(s: Seq<RepVal>) -> Option<Seq<char>>
    decreases s, 2int,
{
    if s.len() == 0 {
        Some(Seq::empty())
    } else {
        match (mapped_items(s.drop_last()), mapped(s.last())) {
            (Some(a), Some(b)) => Some(a + b),
            _ => None,
        }
    }
}

/// The concatenated character-code reading of integers.
pub open spec fn mapped_ints(s: Seq<i64>) -> Option<Seq<char>>
    decreases s.len(),
{
    if s.len() == 0 {
        Some(Seq::empty())
    } else {
        match (mapped_ints(s.drop_last()), mapped_int(s.last())) {
            (Some(a), Some(b)) => Some(a + b),
            _ => None,
        }
    }
}

/// The character-code reading of one integer.
pub open spec fn mapped_int(n: i64) -> Option<Seq<char>> {
    if valid_cp(n as u32) {
        Some(seq![cp_char(n as u32)])
    } else {
        None
    }
}

/// The character-code reading of a value, as characters.
#[verifier::loop_isolation(false)]
pub fn mapped_value(v: &TinValue) -> (r: Result<Vec<char>, TinError>)
    ensures
        r is Ok <==> mapped(v@) is Some,
        r is Ok ==> r->Ok_0@ == mapped(v@)->Some_0,
        r is Err ==> r->Err_0 == TinError::NotAChar,
    decreases *v, 2int,
{
    broadcast use lemma_rep_seq;

    match v {
        TinValue::Int(n) => {
            let cp = #[verifier::truncate] (*n as u32);
            match char_of_u32(cp) {
                Some(c) => {
                    proof {
                        assert(valid_cp(cp));
                    }
                    Ok(vec![c])
                },
                None => Err(TinError::NotAChar),
            }
        },
        TinValue::Vector(s) => {
            proof {
                assert(v@ == RepVal::Vector(rep_seq(s@)));
            }
            let ghost rs = rep_seq(s@);
            let mut out: Vec<char> = Vec::new();
            let n = s.len();
            let mut i: usize = 0;
            while i < n
                invariant
                    0 <= i <= n,
                    n == rs.len(),
                    mapped_items(rs.subrange(0, i as int)) == Some(out@),
                decreases n - i,
            {
                proof {
                    assert(s@[i as int]@ == rs[i as int]);
                    assert(rs.subrange(0, i + 1).drop_last() =~= rs.subrange(0, i as int));
                    assert(rs.subrange(0, i + 1).last() == rs[i as int]);
                }
                match mapped_value(&s[i]) {
                    Ok(mut piece) => {
                        out.append(&mut piece);
                    },
                    Err(e) => {
                        proof {
                            lemma_mapped_items_none(rs, i as int);
                        }
                        return Err(TinError::NotAChar);
                    },
                }
                i += 1;
            }
            proof {
                assert(rs.subrange(0, rs.len() as int) =~= rs);
            }
            Ok(out)
        },
        TinValue::IntVector(s) => {
            proof {
                assert(v@ == RepVal::IntVector(s@));
            }
            let mut out: Vec<char> = Vec::new();
            let n = s.len();
            let mut i: usize = 0;
            while i < n
                invariant
                    0 <= i <= n,
                    n == s@.len(),
                    mapped_ints(s@.subrange(0, i as int)) == Some(out@),
                decreases n - i,
            {
                proof {
                    assert(s@.subrange(0, i + 1).drop_last() =~= s@.subrange(0, i as int));
                    assert(s@.subrange(0, i + 1).last() == s@[i as int]);
                }
                let cp = #[verifier::truncate] (s[i] as u32);
                match char_of_u32(cp) {
                    Some(c) => {
                        proof {
                            assert(valid_cp(cp));
                        }
                        out.push(c);
                    },
                    None => {
                        proof {
                            lemma_mapped_ints_none(s@, i as int);
                        }
                        return Err(TinError::NotAChar);
                    },
                }
                i += 1;
            }
            proof {
                assert(s@.subrange(0, s@.len() as int) =~= s@);
            }
            Ok(out)
        },
        _ => Err(TinError::NotAChar),
    }
}

/// A failed element makes the whole sequence reading fail.
proof fn lemma_mapped_items_none(s: Seq<RepVal>, i: int)
    requires
        0 <= i < s.len(),
        mapped(s[i]) is None,
    ensures
        mapped_items(s.subrange(0, s.len() as int)) is None,
        mapped_items(s) is None,
    decreases s.len() - i,
{
    if i == s.len() - 1 {
        assert(s.drop_last() =~= s.subrange(0, s.len() - 1));
        assert(s.last() == s[i]);
    } else {
        lemma_mapped_items_none(s.drop_last(), i);
        assert(s.drop_last()[i] == s[i]);
    }
    assert(s.subrange(0, s.len() as int) =~= s);
}

/// A failed element makes the whole integer reading fail.
proof fn lemma_mapped_ints_none(s: Seq<i64>, i: int)
    requires
        0 <= i < s.len(),
        mapped_int(s[i]) is None,
    ensures
        mapped_ints(s) is None,
    decreases s.len() - i,
{
    if i == s.len() - 1 {
        assert(s.last() == s[i]);
    } else {
        lemma_mapped_ints_none(s.drop_last(), i);
        assert(s.drop_last()[i] == s[i]);
    }
}

impl TinValue {
    /// The display text of this value.
    pub fn to_string(&self) -> (r: String)
        ensures
            r@ == disp(self@),
    {
        let text = disp_value(self);
        chars_to_string(&text)
    }

    /// The character-code reading of this value.
    pub fn to_mapped_string(&self) -> (r: Result<String, TinError>)
        ensures
            r is Ok <==> mapped(self@) is Some,
            r is Ok ==> r->Ok_0@ == mapped(self@)->Some_0,
    {
        match mapped_value(self) {
            Ok(text) => Ok(chars_to_string(&text)),
            Err(e) => Err(e),
        }
    }
}

} // verus!
