//! The matcher table and its scanners: each grammar rule recognizes a
//! token at the head of the remaining text, or nothing.
//!
//! Pattern rules compete by longest match with ties to the earlier table
//! entry; the two bracket-depth block detectors short-circuit the scan.
use vstd::prelude::*;

use crate::numtext::digits_val;
use crate::numtext::fl_parse;
use crate::numtext::is_digit;
use crate::numtext::parse_digits;
use crate::numtext::parse_float_bits;
use crate::program::clone_chars;
use crate::program::Opcode;
use crate::program::TinToken;
use crate::program::TokRep;

verus! {

broadcast use vstd::std_specs::vec::group_vec_axioms;

/// One grammar rule: a fixed lexical pattern, a literal symbol bound to
/// an instruction, a bracket-depth block detector, or a literal name
/// bound to a call (appended when a definition is parsed).
#[derive(Debug)]
pub enum Matcher {
    FloatLit,
    IntLit,
    CharLit,
    StrLit,
    DefineVar,
    RedefineVar,
    DeleteVar,
    GetVar,
    DefPattern,
    Block,
    RecBlock,
    Sym(Vec<char>, Opcode),
    Name(Vec<char>),
}

/// Whether a character is a lowercase name character.
pub open spec fn is_lower(c: char) -> bool {
    ('a' <= c && c <= 'z') || c == '_'
}

/// Whether `w` occurs in `s` at position `pos`.
pub open spec fn occurs_at(s: Seq<char>, pos: int, w: Seq<char>) -> bool {
    &&& 0 <= pos
    &&& pos + w.len() <= s.len()
    &&& forall|j: int| 0 <= j < w.len() ==> s[pos + j] == #[trigger] w[j]
}

/// Whether a character is a decimal digit.
pub fn digit_ck(c: char) -> (r: bool)
    ensures
        r == is_digit(c),
{
    '0' <= c && c <= '9'
}

/// Whether a character is a lowercase name character.
pub fn lower_ck(c: char) -> (r: bool)
    ensures
        r == is_lower(c),
{
    ('a' <= c && c <= 'z') || c == '_'
}

/// Length of the digit run starting at `pos`.
#[verifier::loop_isolation(false)]
pub fn scan_digits(t: &Vec<char>, pos: usize) -> (r: usize)
    requires
        pos <= t@.len(),
    ensures
        pos + r <= t@.len(),
        forall|j: int| pos <= j < pos + r ==> is_digit(#[trigger] t@[j]),
        pos + r < t@.len() ==> !is_digit(t@[pos + r]),
{
    let mut i: usize = pos;
    while i < t.len() && digit_ck(t[i])
        invariant
            pos <= i <= t@.len(),
            forall|j: int| pos <= j < i ==> is_digit(#[trigger] t@[j]),
        decreases t@.len() - i,
    {
        i += 1;
    }
    i - pos
}

/// Length of the lowercase-name run starting at `pos`.
#[verifier::loop_isolation(false)]
pub fn scan_lower(t: &Vec<char>, pos: usize) -> (r: usize)
    requires
        pos <= t@.len(),
    ensures
        pos + r <= t@.len(),
        forall|j: int| pos <= j < pos + r ==> is_lower(#[trigger] t@[j]),
        pos + r < t@.len() ==> !is_lower(t@[pos + r]),
{
    let mut i: usize = pos;
    while i < t.len() && lower_ck(t[i])
        invariant
            pos <= i <= t@.len(),
            forall|j: int| pos <= j < i ==> is_lower(#[trigger] t@[j]),
        decreases t@.len() - i,
    {
        i += 1;
    }
    i - pos
}

/// The characters of `t` from `from` (inclusive) to `to` (exclusive).
#[verifier::loop_isolation(false)]
pub fn sub_chars(t: &Vec<char>, from: usize, to: usize) -> (r: Vec<char>)
    requires
        from <= to <= t@.len(),
    ensures
        r@ == t@.subrange(from as int, to as int),
{
    let mut out: Vec<char> = Vec::new();
    let mut i: usize = from;
    while i < to
        invariant
            from <= i <= to,
            to <= t@.len(),
            out@ =~= t@.subrange(from as int, i as int),
        decreases to - i,
    {
        out.push(t[i]);
        i += 1;
    }
    proof {
        assert(out@ =~= t@.subrange(from as int, to as int));
    }
    out
}

/// The running bracket depth of `s` (opens minus closes).
pub open spec fn depth_of(s: Seq<char>, open: char, close: char) -> int
    decreases s.len(),
{
    if s.len() == 0 {
        0
    } else {
        depth_of(s.drop_last(), open, close) + (if s.last() == open {
            1int
        } else if s.last() == close {
            -1int
        } else {
            0int
        })
    }
}

/// Finds the true close of a bracketed block opening at `pos`: the
/// shortest span whose depth returns to zero. Nothing when `pos` does
/// not open a bracket or no close balances it.
#[verifier::loop_isolation(false)]
pub fn scan_block(t: &Vec<char>, pos: usize, open: char, close: char) -> (r: Option<usize>)
    requires
        pos <= t@.len(),
        open != close,
    ensures
        r is Some ==> {
            let k = r->Some_0 as int;
            &&& 2 <= k
            &&& pos + k <= t@.len()
            &&& t@[pos as int] == open
            &&& t@[pos + k - 1] == close
            &&& depth_of(t@.subrange(pos as int, pos + k), open, close) == 0
            &&& forall|m: int|
                pos < m < pos + k ==> depth_of(t@.subrange(pos as int, m), open, close) > 0
        },
{
    if pos >= t.len() || t[pos] != open {
        return None;
    }
    let mut depth: i64 = 1;
    let mut i: usize = pos + 1;
    proof {
        let s1 = t@.subrange(pos as int, pos + 1);
        assert(s1.drop_last() =~= Seq::<char>::empty());
        assert(s1.drop_last() == Seq::<char>::empty());
        assert(depth_of(Seq::<char>::empty(), open, close) == 0);
        assert(s1.last() == t@[pos as int]);
        assert(depth_of(s1, open, close) == 1);
    }
    while i < t.len()
        invariant
            pos < i <= t@.len(),
            t@[pos as int] == open,
            open != close,
            1 <= depth,
            depth == depth_of(t@.subrange(pos as int, i as int), open, close),
            forall|m: int| pos < m <= i ==> depth_of(t@.subrange(pos as int, m), open, close) > 0,
        decreases t@.len() - i,
    {
        let c = t[i];
        proof {
            assert(t@.subrange(pos as int, i + 1).drop_last() =~= t@.subrange(pos as int, i as int));
            assert(t@.subrange(pos as int, i + 1).last() == t@[i as int]);
        }
        if c == close {
            if depth == 1 {
                return Some(i + 1 - pos);
            }
            depth = depth - 1;
        } else if c == open {
            if depth == i64::MAX {
                return None;
            }
            depth = depth + 1;
        }
        i += 1;
    }
    None
}

/// What a pattern rule yields at `pos`: the token and length consumed.
/// Literal values are pinned exactly; names and texts are the matched
/// characters.
#[verifier::loop_isolation(false)]
pub fn try_match(m: &Matcher, t: &Vec<char>, pos: usize) -> (r: Option<(TinToken, usize)>)
    requires
        pos < t@.len(),
    ensures
        r is Some ==> 1 <= r->Some_0.1 && pos + r->Some_0.1 <= t@.len(),
        m is Sym ==> ((r is Some <==> (m->Sym_0@.len() >= 1 && occurs_at(t@, pos as int, m->Sym_0@)))
            && (r is Some ==> r->Some_0.0@ == TokRep::Op(m->Sym_1, m->Sym_0@) && r->Some_0.1
            == m->Sym_0@.len())),
        m is Name ==> ((r is Some <==> (m->Name_0@.len() >= 1 && occurs_at(
            t@,
            pos as int,
            m->Name_0@,
        ))) && (r is Some ==> r->Some_0.0@ == TokRep::Call(m->Name_0@) && r->Some_0.1
            == m->Name_0@.len())),
        m is IntLit && r is Some ==> {
            let k = r->Some_0.1 as int;
            &&& (forall|j: int| pos <= j < pos + k ==> is_digit(#[trigger] t@[j]))
            &&& r->Some_0.0@ == TokRep::Int(
                crate::lexer::int_of(t@.subrange(pos as int, pos + k)),
            )
        },
        m is FloatLit && r is Some ==> r->Some_0.0@ == TokRep::Float(
            parse_float_bits(t@.subrange(pos as int, pos + r->Some_0.1)),
        ),
        m is CharLit && r is Some ==> r->Some_0.1 == 3 && t@[pos as int] == '\'' && t@[pos + 2]
            == '\'' && r->Some_0.0@ == TokRep::Int((t@[pos + 1] as u32) as i64),
        m is StrLit && r is Some ==> {
            let k = r->Some_0.1 as int;
            r->Some_0.0@ == TokRep::Str(t@.subrange(pos + 1, pos + k - 1))
        },
        m is Block && r is Some ==> {
            let k = r->Some_0.1 as int;
            r->Some_0.0@ == TokRep::Block(t@.subrange(pos + 1, pos + k - 1))
        },
        m is RecBlock && r is Some ==> {
            let k = r->Some_0.1 as int;
            r->Some_0.0@ == TokRep::RecBlock(t@.subrange(pos + 1, pos + k - 1))
        },
        m is DefPattern && r is Some ==> {
            let k = r->Some_0.1 as int;
            &&& r->Some_0.0@ matches TokRep::Def(body, name) && body.len() + name.len() + 5 == k
                && body.len() >= 1 && name.len() >= 1 && body == t@.subrange(
                pos + 1,
                pos + 1 + body.len(),
            )
        },
        m is DefineVar && r is Some ==> {
            let k = r->Some_0.1 as int;
            r->Some_0.0@ == TokRep::DefineVar(t@.subrange(pos + 1, pos + k))
        },
        m is RedefineVar && r is Some ==> {
            let k = r->Some_0.1 as int;
            r->Some_0.0@ == TokRep::RedefineVar(t@.subrange(pos + 2, pos + k))
        },
        m is DeleteVar && r is Some ==> {
            let k = r->Some_0.1 as int;
            r->Some_0.0@ == TokRep::DeleteVar(t@.subrange(pos + 1, pos + k))
        },
        m is GetVar && r is Some ==> {
            let k = r->Some_0.1 as int;
            r->Some_0.0@ == TokRep::GetVar(t@.subrange(pos + 1, pos + k))
        },
        m is FloatLit && r is Some ==> crate::numtext::is_float_text(
            t@.subrange(pos as int, pos + r->Some_0.1),
        ),
        m is IntLit && r is Some ==> is_digit(t@[pos as int]),
        m is StrLit && r is Some ==> r->Some_0.1 >= 2,
        m is Block && r is Some ==> r->Some_0.1 >= 2,
        m is RecBlock && r is Some ==> r->Some_0.1 >= 2,
        m is DefineVar && r is Some ==> r->Some_0.1 >= 2,
        m is RedefineVar && r is Some ==> r->Some_0.1 >= 3,
        m is DeleteVar && r is Some ==> r->Some_0.1 >= 2,
        m is GetVar && r is Some ==> r->Some_0.1 >= 2,
{
    proof {
        vstd::std_specs::vec::axiom_spec_len(t);
    }
    match m {
        Matcher::FloatLit => {
            let d1 = scan_digits(t, pos);
            let dot = pos + d1;
            if dot < t.len() && t[dot] == '.' {
                let d2 = scan_digits(t, dot + 1);
                if d2 > 0 {
                    let k = d1 + 1 + d2;
                    let lit = sub_chars(t, pos, pos + k);
                    proof {
                        assert(lit@.len() == k);
                        assert forall|j: int|
                            0 <= j < lit@.len() && j != d1 implies is_digit(
                            #[trigger] lit@[j],
                        ) by {
                            assert(lit@[j] == t@[pos + j]);
                        }
                        assert(lit@[d1 as int] == t@[pos + d1]);
                        assert(lit@[d1 as int] == '.');
                        assert(crate::numtext::is_float_text(lit@));
                        assert(lit@.subrange(0, lit@.len() as int) =~= lit@);
                        assert(lit@.subrange(0, lit@.len() as int) == lit@);
                    }
                    let bits = fl_parse(&lit, 0, lit.len());
                    Some((TinToken::Float(bits), k))
                } else {
                    None
                }
            } else {
                None
            }
        },
        Matcher::IntLit => {
            let k = scan_digits(t, pos);
            if k == 0 {
                return None;
            }
            match parse_digits(t, pos, pos + k) {
                Some(v) => {
                    proof {
                        assert(v == crate::lexer::int_of(t@.subrange(pos as int, pos + k)));
                    }
                    Some((TinToken::Int(v), k))
                },
                None => None,
            }
        },
        Matcher::CharLit => {
            if t.len() - pos > 2 && t[pos] == '\'' && t[pos + 1] != '\'' && t[pos + 2] == '\'' {
                let code = t[pos + 1] as u32;
                Some((TinToken::Int(code as i64), 3))
            } else {
                None
            }
        },
        Matcher::StrLit => {
            if t[pos] != '"' {
                return None;
            }
            let mut i: usize = pos + 1;
            while i < t.len() && t[i] != '"'
                invariant
                    pos < i <= t@.len(),
                decreases t@.len() - i,
            {
                i += 1;
            }
            if i < t.len() {
                Some((TinToken::Str(sub_chars(t, pos + 1, i)), i + 1 - pos))
            } else {
                None
            }
        },
        Matcher::DefineVar => {
            if t[pos] != '\u{2192}' {
                return None;
            }
            let k = scan_lower(t, pos + 1);
            if k == 0 {
                return None;
            }
            Some((TinToken::DefineVar(sub_chars(t, pos + 1, pos + 1 + k)), 1 + k))
        },
        Matcher::RedefineVar => {
            if t[pos] != '\u{2192}' || pos + 1 >= t.len() || t[pos + 1] != '.' {
                return None;
            }
            let k = scan_lower(t, pos + 2);
            if k == 0 {
                return None;
            }
            Some((TinToken::RedefineVar(sub_chars(t, pos + 2, pos + 2 + k)), 2 + k))
        },
        Matcher::DeleteVar => {
            if t[pos] != '\u{2190}' {
                return None;
            }
            let k = scan_lower(t, pos + 1);
            if k == 0 {
                return None;
            }
            Some((TinToken::DeleteVar(sub_chars(t, pos + 1, pos + 1 + k)), 1 + k))
        },
        Matcher::GetVar => {
            if t[pos] != '.' {
                return None;
            }
            let k = scan_lower(t, pos + 1);
            if k == 0 {
                return None;
            }
            Some((TinToken::GetVar(sub_chars(t, pos + 1, pos + 1 + k)), 1 + k))
        },
        Matcher::DefPattern => {
            if t[pos] != '|' {
                return None;
            }
            let mut i: usize = pos + 1;
            while i < t.len() && t[i] != '|'
                invariant
                    pos < i <= t@.len(),
                decreases t@.len() - i,
            {
                i += 1;
            }
            if i >= t.len() || i == pos + 1 {
                return None;
            }
            if t.len() - i <= 2 || t[i + 1] != '\u{2192}' || t[i + 2] != '|' {
                return None;
            }
            let mut j: usize = i + 3;
            while j < t.len() && t[j] != '|'
                invariant
                    i + 3 <= j <= t@.len(),
                decreases t@.len() - j,
            {
                j += 1;
            }
            if j >= t.len() || j == i + 3 {
                return None;
            }
            let body = sub_chars(t, pos + 1, i);
            let name = sub_chars(t, i + 3, j);
            Some((TinToken::Def(body, name), j + 1 - pos))
        },
        Matcher::Block => {
            match scan_block(t, pos, '\u{27e8}', '\u{27e9}') {
                Some(k) => Some((TinToken::Block(sub_chars(t, pos + 1, pos + k - 1)), k)),
                None => None,
            }
        },
        Matcher::RecBlock => {
            match scan_block(t, pos, '\u{2991}', '\u{2992}') {
                Some(k) => Some((TinToken::RecBlock(sub_chars(t, pos + 1, pos + k - 1)), k)),
                None => None,
            }
        },
        Matcher::Sym(w, code) => {
            if prefix_at(t, pos, w) {
                Some((TinToken::Op(*code, clone_chars(w)), w.len()))
            } else {
                None
            }
        },
        Matcher::Name(w) => {
            if prefix_at(t, pos, w) {
                Some((TinToken::Call(clone_chars(w)), w.len()))
            } else {
                None
            }
        },
    }
}

/// The integer a digit string denotes, clipped into an `i64` (literals
/// that do not fit are rejected by the matcher).
pub open spec fn int_of(s: Seq<char>) -> i64 {
    if digits_val(s) <= i64::MAX {
        digits_val(s) as i64
    } else {
        0
    }
}

/// Whether the word occurs at `pos`, with a nonempty word.
#[verifier::loop_isolation(false)]
fn prefix_at(t: &Vec<char>, pos: usize, w: &Vec<char>) -> (r: bool)
    requires
        pos <= t@.len(),
    ensures
        r ==> w@.len() >= 1,
        w@.len() >= 1 ==> (r == occurs_at(t@, pos as int, w@)),
{
    if w.len() == 0 {
        return false;
    }
    if w.len() > t.len() - pos {
        proof {
            assert(!occurs_at(t@, pos as int, w@));
        }
        return false;
    }
    let n = w.len();
    let mut i: usize = 0;
    while i < n
        invariant
            0 <= i <= n,
            n == w@.len(),
            pos + n <= t@.len(),
            forall|j: int| 0 <= j < i ==> t@[pos + j] == #[trigger] w@[j],
        decreases n - i,
    {
        if t[pos + i] != w[i] {
            return false;
        }
        i += 1;
    }
    true
}

} // verus!
