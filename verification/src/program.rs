//! Tokens and programs: the instruction sequence the tokenizer builds
//! and the engine drives, with ghost mirrors for contracts.
use vstd::prelude::*;

use crate::arith::BinOp;
use crate::arith::UnOp;

verus! {

broadcast use vstd::std_specs::vec::group_vec_axioms;

/// An instruction of the closed opcode set (blocks, calls and variable
/// instructions are their own token shapes).
#[derive(Debug, Clone, Copy, PartialEq, Eq, Structural)]
pub enum Opcode {
    Drop,
    Dup,
    Swap,
    Copy,
    Unpack,
    Skip,
    SkipDup,
    SkipInv,
    ForeachInit,
    ForeachEnd,
    StorerInit,
    StorerEnd,
    MapInit,
    MapEnd,
    Recurse,
    Bin(BinOp),
    Un(UnOp),
    EqFull,
    Inc,
    Dec,
    Rand,
    AnyOf,
    NoneOf,
    AllOf,
    Iota,
    Boxed,
    GetElem,
    GetElemNc,
    SetElem,
    SumAll,
    MulAll,
    Len,
    Max,
    Min,
    Count,
    CountNc,
    IndexOf,
    IndexOfNc,
    FromIndex,
    SortAsc,
    SortIdxAsc,
    SortDesc,
    SortIdxDesc,
    Unique,
    Counts,
    Append,
    Merge,
    Cartesian,
    Zip,
    Flatten,
    Reverse,
    Window,
    DropFirst,
    DropLast,
    Print,
    PrintStr,
    Println,
    PrintlnStr,
}

/// One lexical unit of a program.
#[derive(Debug)]
pub enum TinToken {
    /// An integer literal.
    Int(i64),
    /// A float literal, by bit pattern.
    Float(u64),
    /// A string literal, expanded to code points only at execution.
    Str(Vec<char>),
    /// An instruction, with its source text for error reports.
    Op(Opcode, Vec<char>),
    /// Push a new binding for the name.
    DefineVar(Vec<char>),
    /// Mutate the top binding for the name (or create one).
    RedefineVar(Vec<char>),
    /// Pop the top binding for the name.
    DeleteVar(Vec<char>),
    /// Read the top binding for the name.
    GetVar(Vec<char>),
    /// Call the named function in a fresh scope.
    Call(Vec<char>),
    /// A caller-bound block, carrying its inner source text.
    Block(Vec<char>),
    /// A self-bound block, carrying its inner source text.
    RecBlock(Vec<char>),
    /// A definition marker (body, name); inert at execution.
    Def(Vec<char>, Vec<char>),
}

/// The ghost mirror of a token.
pub enum TokRep {
    Int(i64),
    Float(u64),
    Str(Seq<char>),
    Op(Opcode, Seq<char>),
    DefineVar(Seq<char>),
    RedefineVar(Seq<char>),
    DeleteVar(Seq<char>),
    GetVar(Seq<char>),
    Call(Seq<char>),
    Block(Seq<char>),
    RecBlock(Seq<char>),
    Def(Seq<char>, Seq<char>),
}

impl View for TinToken {
    type V = TokRep;

    /// The ghost mirror of this token.
    open spec fn view(&self) -> TokRep {
        match self {
            TinToken::Int(n) => TokRep::Int(*n),
            TinToken::Float(b) => TokRep::Float(*b),
            TinToken::Str(s) => TokRep::Str(s@),
            TinToken::Op(o, s) => TokRep::Op(*o, s@),
            TinToken::DefineVar(s) => TokRep::DefineVar(s@),
            TinToken::RedefineVar(s) => TokRep::RedefineVar(s@),
            TinToken::DeleteVar(s) => TokRep::DeleteVar(s@),
            TinToken::GetVar(s) => TokRep::GetVar(s@),
            TinToken::Call(s) => TokRep::Call(s@),
            TinToken::Block(s) => TokRep::Block(s@),
            TinToken::RecBlock(s) => TokRep::RecBlock(s@),
            TinToken::Def(b, n) => TokRep::Def(b@, n@),
        }
    }
}

/// The ghost mirrors of a program, elementwise.
pub open spec fn toks(s: Seq<TinToken>) -> Seq<TokRep> {
    Seq::new(s.len(), |i: int| s[i]@)
}

/// A fresh copy of a character sequence.
#[verifier::loop_isolation(false)]
pub fn clone_chars(v: &Vec<char>) -> (r: Vec<char>)
    ensures
        r@ == v@,
{
    let mut out: Vec<char> = Vec::new();
    let n = v.len();
    let mut i: usize = 0;
    while i < n
        invariant
            0 <= i <= n,
            n == v@.len(),
            out@ =~= v@.subrange(0, i as int),
        decreases n - i,
    {
        out.push(v[i]);
        i += 1;
    }
    proof {
        assert(out@ =~= v@);
    }
    out
}

/// A fresh copy of a token: the mirror is preserved.
pub fn clone_token(t: &TinToken) -> (r: TinToken)
    ensures
        r@ == t@,
{
    match t {
        TinToken::Int(n) => TinToken::Int(*n),
        TinToken::Float(b) => TinToken::Float(*b),
        TinToken::Str(s) => TinToken::Str(clone_chars(s)),
        TinToken::Op(o, s) => TinToken::Op(*o, clone_chars(s)),
        TinToken::DefineVar(s) => TinToken::DefineVar(clone_chars(s)),
        TinToken::RedefineVar(s) => TinToken::RedefineVar(clone_chars(s)),
        TinToken::DeleteVar(s) => TinToken::DeleteVar(clone_chars(s)),
        TinToken::GetVar(s) => TinToken::GetVar(clone_chars(s)),
        TinToken::Call(s) => TinToken::Call(clone_chars(s)),
        TinToken::Block(s) => TinToken::Block(clone_chars(s)),
        TinToken::RecBlock(s) => TinToken::RecBlock(clone_chars(s)),
        TinToken::Def(b, n) => TinToken::Def(clone_chars(b), clone_chars(n)),
    }
}

/// A fresh copy of a program: the mirrors are preserved.
#[verifier::loop_isolation(false)]
pub fn clone_program(p: &Vec<TinToken>) -> (r: Vec<TinToken>)
    ensures
        toks(r@) == toks(p@),
        r@.len() == p@.len(),
{
    let mut out: Vec<TinToken> = Vec::new();
    let n = p.len();
    let mut i: usize = 0;
    while i < n
        invariant
            0 <= i <= n,
            n == p@.len(),
            out@.len() == i,
            forall|j: int| 0 <= j < i ==> #[trigger] out@[j]@ == p@[j]@,
        decreases n - i,
    {
        out.push(clone_token(&p[i]));
        i += 1;
    }
    proof {
        assert(toks(out@) =~= toks(p@));
    }
    out
}

/// Equality of two character sequences.
#[verifier::loop_isolation(false)]
pub fn chars_eq(a: &Vec<char>, b: &Vec<char>) -> (r: bool)
    ensures
        r == (a@ == b@),
{
    if a.len() != b.len() {
        proof {
            assert(a@ != b@);
        }
        return false;
    }
    let n = a.len();
    let mut i: usize = 0;
    while i < n
        invariant
            0 <= i <= n,
            n == a@.len() == b@.len(),
            forall|j: int| 0 <= j < i ==> a@[j] == b@[j],
        decreases n - i,
    {
        if a[i] != b[i] {
            return false;
        }
        i += 1;
    }
    proof {
        assert(a@ =~= b@);
    }
    true
}

} // verus!
