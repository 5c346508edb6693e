//! The interpreter: the self-extending grammar table, the memoizing
//! tokenizer, and the stack machine driving the instruction pointer,
//! with the caller-bound and self-bound recursion disciplines.
use vstd::prelude::*;

use crate::arith::BinOp;
use crate::arith::UnOp;
use crate::apply::apply_bin;
use crate::apply::apply_un;
use crate::errors::TinError;
use crate::program::TokRep;
use crate::value::rep_of;
use crate::value::rep_seq;
use crate::fbits::fl_rand_unit;
use crate::lexer::occurs_at;
use crate::lexer::try_match;
use crate::lexer::Matcher;
use crate::numtext::chars_to_string;
use crate::numtext::is_digit;
use crate::numtext::fmt_i64;
use crate::numtext::str_to_chars;
use crate::ops_agg::op_all;
use crate::ops_agg::op_any;
use crate::ops_agg::op_count;
use crate::ops_agg::op_index_of;
use crate::ops_agg::op_mul_all;
use crate::ops_agg::op_none;
use crate::ops_agg::op_print;
use crate::ops_agg::op_print_str;
use crate::ops_agg::op_sum_all;
use crate::ops_array::op_append;
use crate::ops_array::op_drop_first;
use crate::ops_array::op_drop_last;
use crate::ops_array::op_merge;
use crate::ops_array::op_reverse;
use crate::ops_index::op_cartesian;
use crate::ops_index::op_from_index;
use crate::ops_index::op_get;
use crate::ops_index::op_get_nc;
use crate::ops_index::op_set;
use crate::ops_index::op_window;
use crate::ops_index::op_zip;
use crate::ops_sort::op_extremum;
use crate::ops_sort::op_sort;
use crate::ops_sort::op_sort_idx;
use crate::ops_stack::op_boxed;
use crate::ops_stack::op_copy;
use crate::ops_stack::op_drop;
use crate::ops_stack::op_dup;
use crate::ops_stack::op_iota;
use crate::ops_stack::op_len;
use crate::ops_stack::op_swap;
use crate::ops_stack::op_unpack;
use crate::parallelism::physical_cores;
use crate::parallelism::ParallelPolicy;
use crate::program::chars_eq;
use crate::program::clone_chars;
use crate::program::clone_program;
use crate::program::toks;
use crate::program::Opcode;
use crate::program::TinToken;
use crate::ops_stack::rep_is_vec;
use crate::value::eq_value;
use crate::value::RepVal;
use crate::value::TinValue;
use crate::vector::clone_value;
use crate::vector::push_all_rep;
use crate::vector::rep_elem;
use crate::vector::rep_len;
use crate::vector::TinVector;

verus! {

broadcast use vstd::std_specs::vec::group_vec_axioms;

/// The call-depth budget: named calls, blocks and recursion deeper than
/// this fail instead of exhausting the machine.
pub const MAX_CALL_DEPTH: u64 = 100000;

/// The per-run step budget: a run that rewinds more steps than this
/// fails instead of spinning forever.
pub const MAX_STEPS: u64 = 0xffff_ffff_ffff_ffff;

/// A fatal tokenizer fault, carrying the text that no rule matched.
#[derive(Debug)]
pub struct ParseError {
    /// The remaining source text at the position that matched nothing.
    pub rest: Vec<char>,
}

/// A runtime fault: the failing instruction's text and pointer position
/// wrap the instruction-level error.
#[derive(Debug)]
pub struct RunError {
    /// Why the instruction failed.
    pub kind: TinError,
    /// The failing instruction's source text.
    pub instr: Vec<char>,
    /// The instruction pointer at the failure.
    pub pos: i64,
}

/// An active foreach context: resume position, element source, index.
#[derive(Debug)]
pub struct LoopFrame {
    /// The instruction-pointer position of the opening instruction.
    pub pos: i64,
    /// The vector being walked.
    pub arr: TinVector,
    /// The current element index.
    pub idx: usize,
}

/// An active map context: a foreach context plus the stack depth at the
/// open and the per-loop accumulator.
#[derive(Debug)]
pub struct MapFrame {
    /// The instruction-pointer position of the opening instruction.
    pub pos: i64,
    /// The vector being walked.
    pub arr: TinVector,
    /// The current element index.
    pub idx: usize,
    /// The stack depth recorded at the open.
    pub depth: usize,
    /// The values drained so far, one group per source element.
    pub acc: TinVector,
}

/// The interpreter: grammar table, variable environment, the three
/// context stacks, both caches, the output buffer and the fan-out
/// policy. All of it lives for the session; the caches only grow.
pub struct TinInterpreter {
    /// The ordered matcher table; append-only.
    pub token_list: Vec<Matcher>,
    /// Name to stack of bound values (shadowing).
    pub variables: Vec<(Vec<char>, Vec<TinValue>)>,
    /// Active foreach contexts.
    pub loop_stack: Vec<LoopFrame>,
    /// Stack depths of open captures.
    pub storer_stack: Vec<usize>,
    /// Active map contexts.
    pub map_stack: Vec<MapFrame>,
    /// Exact source text to parsed program.
    pub parse_cache: Vec<(Vec<char>, Vec<TinToken>)>,
    /// Function name to parsed body.
    pub functions_cache: Vec<(Vec<char>, Vec<TinToken>)>,
    /// The output buffer written instead of console output.
    pub output: Vec<char>,
    /// The data-parallel policy, fixed at construction but togglable.
    pub policy: ParallelPolicy,
}

/// Whether an instruction may move the pointer or re-enter a program.
pub open spec fn is_control_op(code: Opcode) -> bool {
    match code {
        Opcode::Skip => true,
        Opcode::SkipDup => true,
        Opcode::SkipInv => true,
        Opcode::ForeachInit => true,
        Opcode::ForeachEnd => true,
        Opcode::MapInit => true,
        Opcode::MapEnd => true,
        Opcode::Recurse => true,
        _ => false,
    }
}

/// Whether a token's failure is wrapped where it happens (everything
/// but the shapes that re-enter another program and pass the inner
/// fault through).
pub open spec fn wraps_own_errors(t: crate::program::TokRep) -> bool {
    match t {
        crate::program::TokRep::Block(_) => false,
        crate::program::TokRep::RecBlock(_) => false,
        crate::program::TokRep::Call(_) => false,
        crate::program::TokRep::Op(code, _) => code != Opcode::Recurse,
        _ => true,
    }
}

/// The code points of a string literal, as the string token pushes them.
pub open spec fn code_points(s: Seq<char>) -> Seq<i64> {
    Seq::new(s.len(), |i: int| (s[i] as u32) as i64)
}

/// Whether a token is a literal: an integer, a float or a string.
pub open spec fn is_literal(t: TokRep) -> bool {
    t is Int || t is Float || t is Str
}

/// Whether every token of a program is a literal.
pub open spec fn all_literals(p: Seq<TokRep>) -> bool {
    forall|i: int| 0 <= i < p.len() ==> is_literal(#[trigger] p[i])
}

/// The value a literal token pushes, at the representation level: the
/// integer, the float pattern, or the code points of the string.
pub open spec fn literal_rep(t: TokRep) -> RepVal {
    match t {
        TokRep::Int(n) => RepVal::Int(n),
        TokRep::Float(b) => RepVal::Float(b),
        TokRep::Str(cs) => RepVal::IntVector(code_points(cs)),
        _ => RepVal::Int(0),
    }
}

/// The values a literal program leaves on the stack, in program order.
pub open spec fn lit_reps(p: Seq<TokRep>) -> Seq<RepVal> {
    Seq::new(p.len(), |i: int| literal_rep(p[i]))
}

/// The first cached program for a key, scanning from entry `i`.
pub open spec fn cache_find_from(
    s: Seq<(Vec<char>, Vec<TinToken>)>,
    key: Seq<char>,
    i: int,
) -> Option<Vec<TinToken>>
    decreases s.len() - i,
{
    if i < 0 || i >= s.len() {
        None
    } else if s[i].0@ == key {
        Some(s[i].1)
    } else {
        cache_find_from(s, key, i + 1)
    }
}

/// The first cached program for a key.
pub open spec fn cache_find(s: Seq<(Vec<char>, Vec<TinToken>)>, key: Seq<char>) -> Option<
    Vec<TinToken>,
> {
    cache_find_from(s, key, 0)
}

/// Appending to a cache keeps every hit and serves misses from the new
/// entry.
proof fn lemma_cache_append(
    s: Seq<(Vec<char>, Vec<TinToken>)>,
    e: (Vec<char>, Vec<TinToken>),
    key: Seq<char>,
    i: int,
)
    requires
        0 <= i <= s.len(),
    ensures
        cache_find_from(s.push(e), key, i) == (if cache_find_from(s, key, i) is Some {
            cache_find_from(s, key, i)
        } else if e.0@ == key {
            Some(e.1)
        } else {
            None
        }),
    decreases s.len() - i,
{
    if i < s.len() {
        assert(s.push(e)[i] == s[i]);
        lemma_cache_append(s, e, key, i + 1);
    } else {
        reveal_with_fuel(cache_find_from, 3);
        assert(s.push(e)[s.len() as int] == e);
    }
}

/// A key found in a cache is found, with the same program, in any
/// extension of that cache: the scan is first-match and the old entries
/// keep their places.
proof fn lemma_cache_persist_from(
    a: Seq<(Vec<char>, Vec<TinToken>)>,
    b: Seq<(Vec<char>, Vec<TinToken>)>,
    key: Seq<char>,
    i: int,
)
    requires
        a.is_prefix_of(b),
        0 <= i <= a.len(),
        cache_find_from(a, key, i) is Some,
    ensures
        cache_find_from(b, key, i) == cache_find_from(a, key, i),
    decreases a.len() - i,
{
    assert(b.subrange(0, a.len() as int)[i] == b[i]);
    if a[i].0@ == key {
    } else {
        lemma_cache_persist_from(a, b, key, i + 1);
    }
}

/// The entry form of the persistence lemma, from the scan's start.
proof fn lemma_cache_persist(
    a: Seq<(Vec<char>, Vec<TinToken>)>,
    b: Seq<(Vec<char>, Vec<TinToken>)>,
    key: Seq<char>,
)
    requires
        a.is_prefix_of(b),
        cache_find(a, key) is Some,
    ensures
        cache_find(b, key) == cache_find(a, key),
{
    lemma_cache_persist_from(a, b, key, 0);
}

/// Prefix order on sequences is transitive.
proof fn lemma_prefix_trans<T>(a: Seq<T>, b: Seq<T>, c: Seq<T>)
    requires
        a.is_prefix_of(b),
        b.is_prefix_of(c),
    ensures
        a.is_prefix_of(c),
{
    assert(c.subrange(0, a.len() as int) =~= b.subrange(0, a.len() as int));
}

/// A prefix of a sequence is a prefix of the sequence with one more
/// element.
proof fn lemma_prefix_push<T>(a: Seq<T>, b: Seq<T>, x: T)
    requires
        a.is_prefix_of(b),
    ensures
        a.is_prefix_of(b.push(x)),
{
    assert(b.push(x).subrange(0, a.len() as int) =~= b.subrange(0, a.len() as int));
}

/// A word occurs at `pos` of a text exactly when it occurs at the head
/// of the remainder from `pos`.
proof fn lemma_occurs_shift(s: Seq<char>, pos: int, w: Seq<char>)
    requires
        0 <= pos <= s.len(),
    ensures
        occurs_at(s.subrange(pos, s.len() as int), 0, w) == occurs_at(s, pos, w),
{
    let r = s.subrange(pos, s.len() as int);
    if occurs_at(s, pos, w) {
        assert forall|j: int| 0 <= j < w.len() implies r[0 + j] == w[j] by {
            assert(s[pos + j] == w[j]);
        }
        assert(occurs_at(r, 0, w));
    }
    if occurs_at(r, 0, w) {
        assert forall|j: int| 0 <= j < w.len() implies s[pos + j] == w[j] by {
            assert(r[j] == w[j]);
        }
        assert(occurs_at(s, pos, w));
    }
}

/// Whether a character is layout the tokenizer skips: the Unicode
/// whitespace set.
pub open spec fn is_layout(c: char) -> bool {
    ('\u{9}' <= c && c <= '\u{d}') || c == ' ' || c == '\u{85}' || c == '\u{a0}' || c
        == '\u{1680}' || ('\u{2000}' <= c && c <= '\u{200a}') || c == '\u{2028}' || c
        == '\u{2029}' || c == '\u{202f}' || c == '\u{205f}' || c == '\u{3000}'
}

/// The layout test, executable.
pub fn layout_ck(c: char) -> (r: bool)
    ensures
        r == is_layout(c),
{
    ('\u{9}' <= c && c <= '\u{d}') || c == ' ' || c == '\u{85}' || c == '\u{a0}' || c
        == '\u{1680}' || ('\u{2000}' <= c && c <= '\u{200a}') || c == '\u{2028}' || c
        == '\u{2029}' || c == '\u{202f}' || c == '\u{205f}' || c == '\u{3000}'
}

/// The first binding list for a variable name, scanning from entry `i`.
pub open spec fn var_find_from(
    s: Seq<(Vec<char>, Vec<TinValue>)>,
    key: Seq<char>,
    i: int,
) -> Option<int>
    decreases s.len() - i,
{
    if i < 0 || i >= s.len() {
        None
    } else if s[i].0@ == key {
        Some(i)
    } else {
        var_find_from(s, key, i + 1)
    }
}

/// The index of the entry for a variable name, if any.
pub open spec fn var_find(s: Seq<(Vec<char>, Vec<TinValue>)>, key: Seq<char>) -> Option<int> {
    var_find_from(s, key, 0)
}

/// Looks up a cache entry, returning a fresh copy of the stored program.
#[verifier::loop_isolation(false)]
fn cache_lookup(cache: &Vec<(Vec<char>, Vec<TinToken>)>, key: &Vec<char>) -> (r: Option<
    Vec<TinToken>,
>)
    ensures
        r is Some <==> cache_find(cache@, key@) is Some,
        r is Some ==> toks(r->Some_0@) == toks(cache_find(cache@, key@)->Some_0@),
{
    let n = cache.len();
    let mut i: usize = 0;
    while i < n
        invariant
            0 <= i <= n,
            n == cache@.len(),
            cache_find(cache@, key@) == cache_find_from(cache@, key@, i as int),
        decreases n - i,
    {
        if chars_eq(&cache[i].0, key) {
            return Some(clone_program(&cache[i].1));
        }
        i += 1;
    }
    None
}

/// Finds the entry index for a variable name.
#[verifier::loop_isolation(false)]
fn var_lookup(vars: &Vec<(Vec<char>, Vec<TinValue>)>, key: &Vec<char>) -> (r: Option<usize>)
    ensures
        r is Some <==> var_find(vars@, key@) is Some,
        r is Some ==> var_find(vars@, key@) == Some(r->Some_0 as int) && r->Some_0 < vars@.len(),
{
    let n = vars.len();
    let mut i: usize = 0;
    while i < n
        invariant
            0 <= i <= n,
            n == vars@.len(),
            var_find(vars@, key@) == var_find_from(vars@, key@, i as int),
        decreases n - i,
    {
        if chars_eq(&vars[i].0, key) {
            return Some(i);
        }
        i += 1;
    }
    None
}

/// One entry of the initial grammar table.
fn sym(text: &str, code: Opcode) -> (r: Matcher)
    ensures
        r is Sym,
        r->Sym_0@ == text@,
        r->Sym_1 == code,
{
    Matcher::Sym(str_to_chars(text), code)
}

impl TinInterpreter {
    /// A fresh interpreter: the standard grammar table, empty state, the
    /// machine's core count probed once, fan-out enabled.
    #[verifier::rlimit(100)]
    pub fn new() -> (r: TinInterpreter)
        ensures
            r.variables@.len() == 0,
            r.loop_stack@.len() == 0,
            r.storer_stack@.len() == 0,
            r.map_stack@.len() == 0,
            r.parse_cache@.len() == 0,
            r.functions_cache@.len() == 0,
            r.output@.len() == 0,
            r.token_list@.len() == 85,
            r.token_list@[0] is FloatLit,
            r.token_list@[1] is IntLit,
            r.token_list@[2] is CharLit,
            r.token_list@[3] is StrLit,
            r.token_list@[4] is Sym && r.token_list@[4]->Sym_0@ == "\u{a1}"@
                && r.token_list@[4]->Sym_1 == Opcode::Drop,
            r.token_list@[5] is Sym && r.token_list@[5]->Sym_0@ == "!"@
                && r.token_list@[5]->Sym_1 == Opcode::Dup,
            r.token_list@[6] is Sym && r.token_list@[6]->Sym_0@ == "\u{21b6}"@
                && r.token_list@[6]->Sym_1 == Opcode::Swap,
            r.token_list@[7] is Sym && r.token_list@[7]->Sym_0@ == "\u{21b7}"@
                && r.token_list@[7]->Sym_1 == Opcode::Copy,
            r.token_list@[8] is Sym && r.token_list@[8]->Sym_0@ == "\u{22ee}"@
                && r.token_list@[8]->Sym_1 == Opcode::Unpack,
            r.token_list@[9] is DefineVar,
            r.token_list@[10] is RedefineVar,
            r.token_list@[11] is DeleteVar,
            r.token_list@[12] is GetVar,
            r.token_list@[13] is DefPattern,
            r.token_list@[14] is Block,
            r.token_list@[15] is RecBlock,
            r.token_list@[16] is Sym && r.token_list@[16]->Sym_0@ == "?"@
                && r.token_list@[16]->Sym_1 == Opcode::Skip,
            r.token_list@[17] is Sym && r.token_list@[17]->Sym_0@ == "\u{25ca}"@
                && r.token_list@[17]->Sym_1 == Opcode::SkipDup,
            r.token_list@[18] is Sym && r.token_list@[18]->Sym_0@ == ":"@
                && r.token_list@[18]->Sym_1 == Opcode::SkipInv,
            r.token_list@[19] is Sym && r.token_list@[19]->Sym_0@ == "{"@
                && r.token_list@[19]->Sym_1 == Opcode::ForeachInit,
            r.token_list@[20] is Sym && r.token_list@[20]->Sym_0@ == "}"@
                && r.token_list@[20]->Sym_1 == Opcode::ForeachEnd,
            r.token_list@[21] is Sym && r.token_list@[21]->Sym_0@ == "("@
                && r.token_list@[21]->Sym_1 == Opcode::StorerInit,
            r.token_list@[22] is Sym && r.token_list@[22]->Sym_0@ == ")"@
                && r.token_list@[22]->Sym_1 == Opcode::StorerEnd,
            r.token_list@[23] is Sym && r.token_list@[23]->Sym_0@ == "["@
                && r.token_list@[23]->Sym_1 == Opcode::MapInit,
            r.token_list@[24] is Sym && r.token_list@[24]->Sym_0@ == "]"@
                && r.token_list@[24]->Sym_1 == Opcode::MapEnd,
            r.token_list@[25] is Sym && r.token_list@[25]->Sym_0@ == "\u{2207}"@
                && r.token_list@[25]->Sym_1 == Opcode::Recurse,
            r.token_list@[26] is Sym && r.token_list@[26]->Sym_0@ == "+"@
                && r.token_list@[26]->Sym_1 == Opcode::Bin(BinOp::Add),
            r.token_list@[27] is Sym && r.token_list@[27]->Sym_0@ == "-"@
                && r.token_list@[27]->Sym_1 == Opcode::Bin(BinOp::Sub),
            r.token_list@[28] is Sym && r.token_list@[28]->Sym_0@ == "\u{b7}"@
                && r.token_list@[28]->Sym_1 == Opcode::Bin(BinOp::Mul),
            r.token_list@[29] is Sym && r.token_list@[29]->Sym_0@ == "/"@
                && r.token_list@[29]->Sym_1 == Opcode::Bin(BinOp::Div),
            r.token_list@[30] is Sym && r.token_list@[30]->Sym_0@ == "%"@
                && r.token_list@[30]->Sym_1 == Opcode::Bin(BinOp::Mod),
            r.token_list@[31] is Sym && r.token_list@[31]->Sym_0@ == "^"@
                && r.token_list@[31]->Sym_1 == Opcode::Bin(BinOp::Pow),
            r.token_list@[32] is Sym && r.token_list@[32]->Sym_0@ == "\u{221a}"@
                && r.token_list@[32]->Sym_1 == Opcode::Un(UnOp::Sqrt),
            r.token_list@[33] is Sym && r.token_list@[33]->Sym_0@ == "\u{22b3}"@
                && r.token_list@[33]->Sym_1 == Opcode::Inc,
            r.token_list@[34] is Sym && r.token_list@[34]->Sym_0@ == "\u{22b2}"@
                && r.token_list@[34]->Sym_1 == Opcode::Dec,
            r.token_list@[35] is Sym && r.token_list@[35]->Sym_0@ == "\u{2309}"@
                && r.token_list@[35]->Sym_1 == Opcode::Un(UnOp::Ceil),
            r.token_list@[36] is Sym && r.token_list@[36]->Sym_0@ == "\u{230b}"@
                && r.token_list@[36]->Sym_1 == Opcode::Un(UnOp::Floor),
            r.token_list@[37] is Sym && r.token_list@[37]->Sym_0@ == "\u{2af0}"@
                && r.token_list@[37]->Sym_1 == Opcode::Rand,
            r.token_list@[38] is Sym && r.token_list@[38]->Sym_0@ == "\u{1d539}"@
                && r.token_list@[38]->Sym_1 == Opcode::Un(UnOp::Truthy),
            r.token_list@[39] is Sym && r.token_list@[39]->Sym_0@ == "\u{1d53d}"@
                && r.token_list@[39]->Sym_1 == Opcode::Un(UnOp::FloatCast),
            r.token_list@[40] is Sym && r.token_list@[40]->Sym_0@ == "\u{ac}"@
                && r.token_list@[40]->Sym_1 == Opcode::Un(UnOp::Neg),
            r.token_list@[41] is Sym && r.token_list@[41]->Sym_0@ == "\u{2228}"@
                && r.token_list@[41]->Sym_1 == Opcode::Bin(BinOp::Or),
            r.token_list@[42] is Sym && r.token_list@[42]->Sym_0@ == "\u{2227}"@
                && r.token_list@[42]->Sym_1 == Opcode::Bin(BinOp::And),
            r.token_list@[43] is Sym && r.token_list@[43]->Sym_0@ == "="@
                && r.token_list@[43]->Sym_1 == Opcode::EqFull,
            r.token_list@[44] is Sym && r.token_list@[44]->Sym_0@ == "<"@
                && r.token_list@[44]->Sym_1 == Opcode::Bin(BinOp::Lt),
            r.token_list@[45] is Sym && r.token_list@[45]->Sym_0@ == "\u{2264}"@
                && r.token_list@[45]->Sym_1 == Opcode::Bin(BinOp::Leq),
            r.token_list@[46] is Sym && r.token_list@[46]->Sym_0@ == ">"@
                && r.token_list@[46]->Sym_1 == Opcode::Bin(BinOp::Gt),
            r.token_list@[47] is Sym && r.token_list@[47]->Sym_0@ == "\u{2265}"@
                && r.token_list@[47]->Sym_1 == Opcode::Bin(BinOp::Geq),
            r.token_list@[48] is Sym && r.token_list@[48]->Sym_0@ == "\u{2203}"@
                && r.token_list@[48]->Sym_1 == Opcode::AnyOf,
            r.token_list@[49] is Sym && r.token_list@[49]->Sym_0@ == "\u{2204}"@
                && r.token_list@[49]->Sym_1 == Opcode::NoneOf,
            r.token_list@[50] is Sym && r.token_list@[50]->Sym_0@ == "\u{2200}"@
                && r.token_list@[50]->Sym_1 == Opcode::AllOf,
            r.token_list@[51] is Sym && r.token_list@[51]->Sym_0@ == "\u{3b9}"@
                && r.token_list@[51]->Sym_1 == Opcode::Iota,
            r.token_list@[52] is Sym && r.token_list@[52]->Sym_0@ == "\u{25a1}"@
                && r.token_list@[52]->Sym_1 == Opcode::Boxed,
            r.token_list@[53] is Sym && r.token_list@[53]->Sym_0@ == "\u{2193}"@
                && r.token_list@[53]->Sym_1 == Opcode::GetElem,
            r.token_list@[54] is Sym && r.token_list@[54]->Sym_0@ == "*\u{2193}"@
                && r.token_list@[54]->Sym_1 == Opcode::GetElemNc,
            r.token_list@[55] is Sym && r.token_list@[55]->Sym_0@ == "\u{2191}"@
                && r.token_list@[55]->Sym_1 == Opcode::SetElem,
            r.token_list@[56] is Sym && r.token_list@[56]->Sym_0@ == "\u{2211}"@
                && r.token_list@[56]->Sym_1 == Opcode::SumAll,
            r.token_list@[57] is Sym && r.token_list@[57]->Sym_0@ == "\u{220f}"@
                && r.token_list@[57]->Sym_1 == Opcode::MulAll,
            r.token_list@[58] is Sym && r.token_list@[58]->Sym_0@ == "\u{2374}"@
                && r.token_list@[58]->Sym_1 == Opcode::Len,
            r.token_list@[59] is Sym && r.token_list@[59]->Sym_0@ == "\u{2308}"@
                && r.token_list@[59]->Sym_1 == Opcode::Max,
            r.token_list@[60] is Sym && r.token_list@[60]->Sym_0@ == "\u{230a}"@
                && r.token_list@[60]->Sym_1 == Opcode::Min,
            r.token_list@[61] is Sym && r.token_list@[61]->Sym_0@ == "#"@
                && r.token_list@[61]->Sym_1 == Opcode::Count,
            r.token_list@[62] is Sym && r.token_list@[62]->Sym_0@ == "*#"@
                && r.token_list@[62]->Sym_1 == Opcode::CountNc,
            r.token_list@[63] is Sym && r.token_list@[63]->Sym_0@ == "\u{ba}"@
                && r.token_list@[63]->Sym_1 == Opcode::IndexOf,
            r.token_list@[64] is Sym && r.token_list@[64]->Sym_0@ == "*\u{ba}"@
                && r.token_list@[64]->Sym_1 == Opcode::IndexOfNc,
            r.token_list@[65] is Sym && r.token_list@[65]->Sym_0@ == "@"@
                && r.token_list@[65]->Sym_1 == Opcode::FromIndex,
            r.token_list@[66] is Sym && r.token_list@[66]->Sym_0@ == "\u{21d1}"@
                && r.token_list@[66]->Sym_1 == Opcode::SortAsc,
            r.token_list@[67] is Sym && r.token_list@[67]->Sym_0@ == ".\u{21d1}"@
                && r.token_list@[67]->Sym_1 == Opcode::SortIdxAsc,
            r.token_list@[68] is Sym && r.token_list@[68]->Sym_0@ == "\u{21d3}"@
                && r.token_list@[68]->Sym_1 == Opcode::SortDesc,
            r.token_list@[69] is Sym && r.token_list@[69]->Sym_0@ == ".\u{21d3}"@
                && r.token_list@[69]->Sym_1 == Opcode::SortIdxDesc,
            r.token_list@[70] is Sym && r.token_list@[70]->Sym_0@ == "\u{2283}"@
                && r.token_list@[70]->Sym_1 == Opcode::Unique,
            r.token_list@[71] is Sym && r.token_list@[71]->Sym_0@ == "\u{2282}"@
                && r.token_list@[71]->Sym_1 == Opcode::Counts,
            r.token_list@[72] is Sym && r.token_list@[72]->Sym_0@ == ","@
                && r.token_list@[72]->Sym_1 == Opcode::Append,
            r.token_list@[73] is Sym && r.token_list@[73]->Sym_0@ == "_"@
                && r.token_list@[73]->Sym_1 == Opcode::Merge,
            r.token_list@[74] is Sym && r.token_list@[74]->Sym_0@ == "\u{2a2f}"@
                && r.token_list@[74]->Sym_1 == Opcode::Cartesian,
            r.token_list@[75] is Sym && r.token_list@[75]->Sym_0@ == "\u{2a1d}"@
                && r.token_list@[75]->Sym_1 == Opcode::Zip,
            r.token_list@[76] is Sym && r.token_list@[76]->Sym_0@ == "\u{2294}"@
                && r.token_list@[76]->Sym_1 == Opcode::Flatten,
            r.token_list@[77] is Sym && r.token_list@[77]->Sym_0@ == "\u{293e}"@
                && r.token_list@[77]->Sym_1 == Opcode::Reverse,
            r.token_list@[78] is Sym && r.token_list@[78]->Sym_0@ == "\u{229e}"@
                && r.token_list@[78]->Sym_1 == Opcode::Window,
            r.token_list@[79] is Sym && r.token_list@[79]->Sym_0@ == "`"@
                && r.token_list@[79]->Sym_1 == Opcode::DropFirst,
            r.token_list@[80] is Sym && r.token_list@[80]->Sym_0@ == "\u{b4}"@
                && r.token_list@[80]->Sym_1 == Opcode::DropLast,
            r.token_list@[81] is Sym && r.token_list@[81]->Sym_0@ == "$"@
                && r.token_list@[81]->Sym_1 == Opcode::Print,
            r.token_list@[82] is Sym && r.token_list@[82]->Sym_0@ == "*$"@
                && r.token_list@[82]->Sym_1 == Opcode::PrintStr,
            r.token_list@[83] is Sym && r.token_list@[83]->Sym_0@ == ".$"@
                && r.token_list@[83]->Sym_1 == Opcode::Println,
            r.token_list@[84] is Sym && r.token_list@[84]->Sym_0@ == "*.$"@
                && r.token_list@[84]->Sym_1 == Opcode::PrintlnStr,
    {
        let mut t: Vec<Matcher> = Vec::new();
        t.push(Matcher::FloatLit);
        t.push(Matcher::IntLit);
        t.push(Matcher::CharLit);
        t.push(Matcher::StrLit);
        t.push(sym("\u{a1}", Opcode::Drop));
        t.push(sym("!", Opcode::Dup));
        t.push(sym("\u{21b6}", Opcode::Swap));
        t.push(sym("\u{21b7}", Opcode::Copy));
        t.push(sym("\u{22ee}", Opcode::Unpack));
        t.push(Matcher::DefineVar);
        t.push(Matcher::RedefineVar);
        t.push(Matcher::DeleteVar);
        t.push(Matcher::GetVar);
        t.push(Matcher::DefPattern);
        t.push(Matcher::Block);
        t.push(Matcher::RecBlock);
        t.push(sym("?", Opcode::Skip));
        t.push(sym("\u{25ca}", Opcode::SkipDup));
        t.push(sym(":", Opcode::SkipInv));
        t.push(sym("{", Opcode::ForeachInit));
        t.push(sym("}", Opcode::ForeachEnd));
        t.push(sym("(", Opcode::StorerInit));
        t.push(sym(")", Opcode::StorerEnd));
        t.push(sym("[", Opcode::MapInit));
        t.push(sym("]", Opcode::MapEnd));
        t.push(sym("\u{2207}", Opcode::Recurse));
        t.push(sym("+", Opcode::Bin(BinOp::Add)));
        t.push(sym("-", Opcode::Bin(BinOp::Sub)));
        t.push(sym("\u{b7}", Opcode::Bin(BinOp::Mul)));
        t.push(sym("/", Opcode::Bin(BinOp::Div)));
        t.push(sym("%", Opcode::Bin(BinOp::Mod)));
        t.push(sym("^", Opcode::Bin(BinOp::Pow)));
        t.push(sym("\u{221a}", Opcode::Un(UnOp::Sqrt)));
        t.push(sym("\u{22b3}", Opcode::Inc));
        t.push(sym("\u{22b2}", Opcode::Dec));
        t.push(sym("\u{2309}", Opcode::Un(UnOp::Ceil)));
        t.push(sym("\u{230b}", Opcode::Un(UnOp::Floor)));
        t.push(sym("\u{2af0}", Opcode::Rand));
        t.push(sym("\u{1d539}", Opcode::Un(UnOp::Truthy)));
        t.push(sym("\u{1d53d}", Opcode::Un(UnOp::FloatCast)));
        t.push(sym("\u{ac}", Opcode::Un(UnOp::Neg)));
        t.push(sym("\u{2228}", Opcode::Bin(BinOp::Or)));
        t.push(sym("\u{2227}", Opcode::Bin(BinOp::And)));
        t.push(sym("=", Opcode::EqFull));
        t.push(sym("<", Opcode::Bin(BinOp::Lt)));
        t.push(sym("\u{2264}", Opcode::Bin(BinOp::Leq)));
        t.push(sym(">", Opcode::Bin(BinOp::Gt)));
        t.push(sym("\u{2265}", Opcode::Bin(BinOp::Geq)));
        t.push(sym("\u{2203}", Opcode::AnyOf));
        t.push(sym("\u{2204}", Opcode::NoneOf));
        t.push(sym("\u{2200}", Opcode::AllOf));
        t.push(sym("\u{3b9}", Opcode::Iota));
        t.push(sym("\u{25a1}", Opcode::Boxed));
        t.push(sym("\u{2193}", Opcode::GetElem));
        t.push(sym("*\u{2193}", Opcode::GetElemNc));
        t.push(sym("\u{2191}", Opcode::SetElem));
        t.push(sym("\u{2211}", Opcode::SumAll));
        t.push(sym("\u{220f}", Opcode::MulAll));
        t.push(sym("\u{2374}", Opcode::Len));
        t.push(sym("\u{2308}", Opcode::Max));
        t.push(sym("\u{230a}", Opcode::Min));
        t.push(sym("#", Opcode::Count));
        t.push(sym("*#", Opcode::CountNc));
        t.push(sym("\u{ba}", Opcode::IndexOf));
        t.push(sym("*\u{ba}", Opcode::IndexOfNc));
        t.push(sym("@", Opcode::FromIndex));
        t.push(sym("\u{21d1}", Opcode::SortAsc));
        t.push(sym(".\u{21d1}", Opcode::SortIdxAsc));
        t.push(sym("\u{21d3}", Opcode::SortDesc));
        t.push(sym(".\u{21d3}", Opcode::SortIdxDesc));
        t.push(sym("\u{2283}", Opcode::Unique));
        t.push(sym("\u{2282}", Opcode::Counts));
        t.push(sym(",", Opcode::Append));
        t.push(sym("_", Opcode::Merge));
        t.push(sym("\u{2a2f}", Opcode::Cartesian));
        t.push(sym("\u{2a1d}", Opcode::Zip));
        t.push(sym("\u{2294}", Opcode::Flatten));
        t.push(sym("\u{293e}", Opcode::Reverse));
        t.push(sym("\u{229e}", Opcode::Window));
        t.push(sym("`", Opcode::DropFirst));
        t.push(sym("\u{b4}", Opcode::DropLast));
        t.push(sym("$", Opcode::Print));
        t.push(sym("*$", Opcode::PrintStr));
        t.push(sym(".$", Opcode::Println));
        t.push(sym("*.$", Opcode::PrintlnStr));
        TinInterpreter {
            token_list: t,
            variables: Vec::new(),
            loop_stack: Vec::new(),
            storer_stack: Vec::new(),
            map_stack: Vec::new(),
            parse_cache: Vec::new(),
            functions_cache: Vec::new(),
            output: Vec::new(),
            policy: ParallelPolicy { enabled: true, cores: physical_cores() },
        }
    }

    /// Turns source text into a program: whitespace and comments are
    /// skipped; at each position the table's algorithmic matchers
    /// short-circuit and the pattern matchers compete by longest match
    /// with ties to the earlier entry; a definition is resolved
    /// immediately, growing the grammar. Memoized by exact source text:
    /// a text already in the cache parses to the cached program again.
    pub fn parse(&mut self, code: &str) -> (r: Result<Vec<TinToken>, ParseError>)
        ensures
            cache_find(old(self).parse_cache@, code@) is Some ==> r is Ok && toks(r->Ok_0@)
                == toks(cache_find(old(self).parse_cache@, code@)->Some_0@),
            r is Ok ==> cache_find(final(self).parse_cache@, code@) is Some && toks(
                cache_find(final(self).parse_cache@, code@)->Some_0@,
            ) == toks(r->Ok_0@),
            final(self).output@ == old(self).output@,
            final(self).variables@ == old(self).variables@,
            final(self).policy == old(self).policy,
            cache_find(old(self).parse_cache@, code@) is Some ==> *final(self) == *old(self),
            r is Err ==> cache_find(final(self).parse_cache@, code@) == cache_find(
                old(self).parse_cache@,
                code@,
            ),
            r is Err ==> exists|p: int, q: int|
                0 <= p < q <= code@.len() && r->Err_0.rest@ == code@.subrange(p, q),
            r is Err ==> r->Err_0.rest@.len() > 0 && !is_layout(r->Err_0.rest@[0])
                && r->Err_0.rest@[0] != '\u{2234}',
            r is Err ==> forall|k: int|
                0 <= k < final(self).token_list@.len()
                    ==> (((#[trigger] final(self).token_list@[k]) is Sym ==> !(final(
                    self).token_list@[k]->Sym_0@.len() >= 1 && occurs_at(
                    r->Err_0.rest@,
                    0,
                    final(self).token_list@[k]->Sym_0@,
                ))) && (final(self).token_list@[k] is Name ==> !(final(
                    self).token_list@[k]->Name_0@.len() >= 1 && occurs_at(
                    r->Err_0.rest@,
                    0,
                    final(self).token_list@[k]->Name_0@,
                )))),
            old(self).token_list@.is_prefix_of(final(self).token_list@),
            forall|j: int|
                old(self).token_list@.len() <= j < final(self).token_list@.len()
                    ==> final(self).token_list@[j] is Name,
            old(self).functions_cache@.is_prefix_of(final(self).functions_cache@),
            old(self).parse_cache@.is_prefix_of(final(self).parse_cache@),
            r is Ok && cache_find(old(self).parse_cache@, code@) is None ==> forall|i: int|
                0 <= i < r->Ok_0@.len() && (#[trigger] r->Ok_0@[i])@ is Def ==> (cache_find(
                    final(self).functions_cache@,
                    r->Ok_0@[i]@->Def_1,
                ) is Some && cache_find(final(self).parse_cache@, r->Ok_0@[i]@->Def_0) is Some),
            forall|j: int|
                old(self).token_list@.len() <= j < final(self).token_list@.len() ==> cache_find(
                    final(self).functions_cache@,
                    (#[trigger] final(self).token_list@[j])->Name_0@,
                ) is Some,
            r is Ok && cache_find(old(self).parse_cache@, code@) is None && code@.len() > 0
                && !is_layout(code@[0]) && code@[0] != '\u{2234}' ==> r->Ok_0@.len() > 0,
            cache_find(old(self).parse_cache@, code@) is None && code@.len() == 0 ==> r is Ok
                && r->Ok_0@.len() == 0,
            forall|k: int|
                (cache_find(old(self).parse_cache@, code@) is None && code@.len() == 1
                    && !is_layout(code@[0]) && code@[0] != '\u{2234}' && 0 <= k < old(
                    self).token_list@.len() && (#[trigger] old(self).token_list@[k]) is Sym
                    && old(self).token_list@[k]->Sym_0@ == code@) ==> (r is Ok && r->Ok_0@.len()
                    == 1),
            forall|k: int|
                (cache_find(old(self).parse_cache@, code@) is None && code@.len() == 1
                    && !is_layout(code@[0]) && code@[0] != '\u{2234}' && !is_digit(code@[0]) && (
                forall|k3: int|
                    0 <= k3 < old(self).token_list@.len() ==> ((#[trigger] old(
                        self).token_list@[k3]) is Name ==> old(self).token_list@[k3]->Name_0@
                        != code@)) && 0 <= k < old(self).token_list@.len() && (#[trigger] old(
                    self).token_list@[k]) is Sym && old(self).token_list@[k]->Sym_0@ == code@)
                    ==> (r is Ok && r->Ok_0@.len() == 1 && (exists|k2: int|
                    0 <= k2 < old(self).token_list@.len() && (#[trigger] old(
                        self).token_list@[k2]) is Sym && old(self).token_list@[k2]->Sym_0@
                        == code@ && r->Ok_0@[0]@ == TokRep::Op(
                        old(self).token_list@[k2]->Sym_1,
                        code@,
                    ))),
    {
        let text = str_to_chars(code);
        self.parse_text(&text)
    }

    /// The tokenizer over characters (the shared worker behind `parse`
    /// and block re-parsing).
    #[verifier::loop_isolation(false)]
    pub fn parse_text(&mut self, text: &Vec<char>) -> (r: Result<Vec<TinToken>, ParseError>)
        ensures
            cache_find(old(self).parse_cache@, text@) is Some ==> r is Ok && toks(r->Ok_0@)
                == toks(cache_find(old(self).parse_cache@, text@)->Some_0@),
            r is Ok ==> cache_find(final(self).parse_cache@, text@) is Some && toks(
                cache_find(final(self).parse_cache@, text@)->Some_0@,
            ) == toks(r->Ok_0@),
            forall|k: Seq<char>| #![auto]
                cache_find(final(self).parse_cache@, k) != cache_find(old(self).parse_cache@, k)
                    ==> (k.len() < text@.len() || k == text@),
            final(self).output@ == old(self).output@,
            final(self).variables@ == old(self).variables@,
            final(self).policy == old(self).policy,
            cache_find(old(self).parse_cache@, text@) is Some ==> *final(self) == *old(self),
            r is Err ==> cache_find(final(self).parse_cache@, text@) == cache_find(
                old(self).parse_cache@,
                text@,
            ),
            r is Err ==> exists|p: int, q: int|
                0 <= p < q <= text@.len() && r->Err_0.rest@ == text@.subrange(p, q),
            r is Err ==> r->Err_0.rest@.len() > 0 && !is_layout(r->Err_0.rest@[0])
                && r->Err_0.rest@[0] != '\u{2234}',
            r is Err ==> forall|k: int|
                0 <= k < final(self).token_list@.len()
                    ==> (((#[trigger] final(self).token_list@[k]) is Sym ==> !(final(
                    self).token_list@[k]->Sym_0@.len() >= 1 && occurs_at(
                    r->Err_0.rest@,
                    0,
                    final(self).token_list@[k]->Sym_0@,
                ))) && (final(self).token_list@[k] is Name ==> !(final(
                    self).token_list@[k]->Name_0@.len() >= 1 && occurs_at(
                    r->Err_0.rest@,
                    0,
                    final(self).token_list@[k]->Name_0@,
                )))),
            old(self).token_list@.is_prefix_of(final(self).token_list@),
            forall|j: int|
                old(self).token_list@.len() <= j < final(self).token_list@.len()
                    ==> final(self).token_list@[j] is Name,
            old(self).functions_cache@.is_prefix_of(final(self).functions_cache@),
            old(self).parse_cache@.is_prefix_of(final(self).parse_cache@),
            r is Ok && cache_find(old(self).parse_cache@, text@) is None ==> forall|i: int|
                0 <= i < r->Ok_0@.len() && (#[trigger] r->Ok_0@[i])@ is Def ==> (cache_find(
                    final(self).functions_cache@,
                    r->Ok_0@[i]@->Def_1,
                ) is Some && cache_find(final(self).parse_cache@, r->Ok_0@[i]@->Def_0) is Some),
            forall|j: int|
                old(self).token_list@.len() <= j < final(self).token_list@.len() ==> cache_find(
                    final(self).functions_cache@,
                    (#[trigger] final(self).token_list@[j])->Name_0@,
                ) is Some,
            r is Ok && cache_find(old(self).parse_cache@, text@) is None && text@.len() > 0
                && !is_layout(text@[0]) && text@[0] != '\u{2234}' ==> r->Ok_0@.len() > 0,
            cache_find(old(self).parse_cache@, text@) is None && text@.len() == 0 ==> r is Ok
                && r->Ok_0@.len() == 0,
            forall|k: int|
                (cache_find(old(self).parse_cache@, text@) is None && text@.len() == 1
                    && !is_layout(text@[0]) && text@[0] != '\u{2234}' && 0 <= k < old(
                    self).token_list@.len() && (#[trigger] old(self).token_list@[k]) is Sym
                    && old(self).token_list@[k]->Sym_0@ == text@) ==> (r is Ok && r->Ok_0@.len()
                    == 1),
            forall|k: int|
                (cache_find(old(self).parse_cache@, text@) is None && text@.len() == 1
                    && !is_layout(text@[0]) && text@[0] != '\u{2234}' && !is_digit(text@[0]) && (
                forall|k3: int|
                    0 <= k3 < old(self).token_list@.len() ==> ((#[trigger] old(
                        self).token_list@[k3]) is Name ==> old(self).token_list@[k3]->Name_0@
                        != text@)) && 0 <= k < old(self).token_list@.len() && (#[trigger] old(
                    self).token_list@[k]) is Sym && old(self).token_list@[k]->Sym_0@ == text@)
                    ==> (r is Ok && r->Ok_0@.len() == 1 && (exists|k2: int|
                    0 <= k2 < old(self).token_list@.len() && (#[trigger] old(
                        self).token_list@[k2]) is Sym && old(self).token_list@[k2]->Sym_0@
                        == text@ && r->Ok_0@[0]@ == TokRep::Op(
                        old(self).token_list@[k2]->Sym_1,
                        text@,
                    ))),
        decreases text@.len(),
    {
        match cache_lookup(&self.parse_cache, text) {
            Some(p) => {
                return Ok(p);
            },
            None => {},
        }
        proof {
            assert(self.token_list@.subrange(0, self.token_list@.len() as int)
                =~= self.token_list@);
            assert(self.functions_cache@.subrange(0, self.functions_cache@.len() as int)
                =~= self.functions_cache@);
            assert(self.parse_cache@.subrange(0, self.parse_cache@.len() as int)
                =~= self.parse_cache@);
        }
        let mut res: Vec<TinToken> = Vec::new();
        let mut pos: usize = 0;
        let n = text.len();
        while pos < n
            invariant
                0 <= pos <= n,
                n == text@.len(),
                self.output@ == old(self).output@,
                self.variables@ == old(self).variables@,
                self.policy == old(self).policy,
                forall|k: Seq<char>| #![auto]
                    cache_find(self.parse_cache@, k) != cache_find(old(self).parse_cache@, k)
                        ==> k.len() < text@.len(),
                old(self).token_list@.is_prefix_of(self.token_list@),
                forall|j: int|
                    old(self).token_list@.len() <= j < self.token_list@.len()
                        ==> self.token_list@[j] is Name,
                old(self).functions_cache@.is_prefix_of(self.functions_cache@),
                old(self).parse_cache@.is_prefix_of(self.parse_cache@),
                forall|i: int|
                    0 <= i < res@.len() && (#[trigger] res@[i])@ is Def ==> (cache_find(
                        self.functions_cache@,
                        res@[i]@->Def_1,
                    ) is Some && cache_find(self.parse_cache@, res@[i]@->Def_0) is Some),
                forall|j: int|
                    old(self).token_list@.len() <= j < self.token_list@.len() ==> cache_find(
                        self.functions_cache@,
                        (#[trigger] self.token_list@[j])->Name_0@,
                    ) is Some,
                pos > 0 && text@.len() > 0 && !is_layout(text@[0]) && text@[0] != '\u{2234}'
                    ==> res@.len() > 0,
                text@.len() == 0 ==> res@.len() == 0,
                text@.len() == 1 && !is_layout(text@[0]) && text@[0] != '\u{2234}' ==> res@.len()
                    == pos,
                pos == 0 ==> self.token_list@ == old(self).token_list@,
                text@.len() == 1 && !is_layout(text@[0]) && text@[0] != '\u{2234}' && !is_digit(
                    text@[0],
                ) && (forall|k: int|
                    0 <= k < old(self).token_list@.len() ==> ((#[trigger] old(
                        self).token_list@[k]) is Name ==> old(self).token_list@[k]->Name_0@
                        != text@)) && pos == 1 ==> (res@.len() == 1 && (exists|k: int|
                    0 <= k < old(self).token_list@.len() && (#[trigger] old(
                        self).token_list@[k]) is Sym && old(self).token_list@[k]->Sym_0@ == text@
                        && res@[0]@ == TokRep::Op(old(self).token_list@[k]->Sym_1, text@))),
            decreases n - pos,
        {
            let c = text[pos];
            if layout_ck(c) {
                pos += 1;
            } else if c == '\u{2234}' {
                pos += 1;
                let mut j: usize = pos;
                while j < n && text[j] != '\u{2234}' && text[j] != '\n'
                    invariant
                        pos <= j <= n,
                        n == text@.len(),
                    decreases n - j,
                {
                    j += 1;
                }
                if j < n {
                    pos = j + 1;
                } else {
                    pos = n;
                }
            } else {
                let mut best: Option<(TinToken, usize)> = None;
                let mut short_circuit = false;
                let table_len = self.token_list.len();
                let mut m: usize = 0;
                while m < table_len && !short_circuit
                    invariant
                        0 <= m <= table_len,
                        table_len == self.token_list@.len(),
                        pos < n,
                        n == text@.len(),
                        best is Some ==> 1 <= best->Some_0.1 && pos + best->Some_0.1 <= n,
                        best is Some && best->Some_0.0 is Def ==> best->Some_0.0->Def_0@.len() + 5
                            <= best->Some_0.1,
                        best is Some && best->Some_0.0 is Def ==> best->Some_0.0->Def_0@ == text@
                            .subrange(
                            pos + 1,
                            pos + 1 + best->Some_0.0->Def_0@.len(),
                        ),
                        short_circuit ==> best is Some,
                        pos == 0 && text@.len() == 1 && (exists|k2: int|
                            0 <= k2 < m && (#[trigger] self.token_list@[k2]) is Sym
                                && self.token_list@[k2]->Sym_0@ == text@) ==> best is Some,
                        pos == 0 && text@.len() == 1 && !is_digit(text@[0]) && (forall|k2: int|
                            0 <= k2 < self.token_list@.len() ==> ((#[trigger] self
                            .token_list@[k2]) is Name ==> self.token_list@[k2]->Name_0@
                                != text@)) && best is Some ==> (best->Some_0.1 == 1 && (exists|
                        k2: int|
                            0 <= k2 < self.token_list@.len() && (#[trigger] self
                            .token_list@[k2]) is Sym && self.token_list@[k2]->Sym_0@ == text@
                                && best->Some_0.0@ == TokRep::Op(
                                self.token_list@[k2]->Sym_1,
                                text@,
                            ))),
                        best is None ==> forall|k2: int|
                            0 <= k2 < m ==> (((#[trigger] self.token_list@[k2]) is Sym ==> !(
                            self.token_list@[k2]->Sym_0@.len() >= 1 && occurs_at(
                                text@,
                                pos as int,
                                self.token_list@[k2]->Sym_0@,
                            ))) && (self.token_list@[k2] is Name ==> !(
                            self.token_list@[k2]->Name_0@.len() >= 1 && occurs_at(
                                text@,
                                pos as int,
                                self.token_list@[k2]->Name_0@,
                            )))),
                    decreases table_len - m,
                {
                    let matcher = &self.token_list[m];
                    let is_algorithmic = match matcher {
                        Matcher::Block => true,
                        Matcher::RecBlock => true,
                        _ => false,
                    };
                    match try_match(matcher, text, pos) {
                        Some((tok, used)) => {
                            proof {
                                if pos == 0 && text@.len() == 1 {
                                    if self.token_list@[m as int] is Sym {
                                        assert(self.token_list@[m as int]->Sym_0@ =~= text@);
                                    }
                                    if self.token_list@[m as int] is Name {
                                        assert(self.token_list@[m as int]->Name_0@ =~= text@);
                                    }
                                }
                            }
                            if is_algorithmic {
                                best = Some((tok, used));
                                short_circuit = true;
                            } else {
                                let better = match &best {
                                    Some((_, k)) => used > *k,
                                    None => true,
                                };
                                if better {
                                    best = Some((tok, used));
                                }
                            }
                        },
                        None => {},
                    }
                    m += 1;
                }
                match best {
                    Some((tok, used)) => {
                        match tok {
                            TinToken::Def(body, name) => {
                                let ghost pre = *self;
                                let func_code = match self.parse_text(&body) {
                                    Ok(p) => p,
                                    Err(e) => {
                                        proof {
                                            let (p2, q2) = choose|p2: int, q2: int|
                                                0 <= p2 <= q2 <= body@.len() && e.rest@ == body@
                                                    .subrange(p2, q2);
                                            assert(e.rest@ =~= text@.subrange(
                                                pos + 1 + p2,
                                                pos + 1 + q2,
                                            ));
                                            lemma_prefix_trans(
                                                old(self).token_list@,
                                                pre.token_list@,
                                                self.token_list@,
                                            );
                                            lemma_prefix_trans(
                                                old(self).functions_cache@,
                                                pre.functions_cache@,
                                                self.functions_cache@,
                                            );
                                            lemma_prefix_trans(
                                                old(self).parse_cache@,
                                                pre.parse_cache@,
                                                self.parse_cache@,
                                            );
                                            assert forall|j: int|
                                                old(self).token_list@.len() <= j
                                                    < self.token_list@.len() implies self
                                                .token_list@[j] is Name by {
                                                if j < pre.token_list@.len() {
                                                    assert(self.token_list@.subrange(
                                                        0,
                                                        pre.token_list@.len() as int,
                                                    )[j] == self.token_list@[j]);
                                                }
                                            };
                                            assert forall|j: int|
                                                old(self).token_list@.len() <= j
                                                    < self.token_list@.len() implies cache_find(
                                                self.functions_cache@,
                                                (#[trigger] self.token_list@[j])->Name_0@,
                                            ) is Some by {
                                                if j < pre.token_list@.len() {
                                                    assert(self.token_list@.subrange(
                                                        0,
                                                        pre.token_list@.len() as int,
                                                    )[j] == self.token_list@[j]);
                                                    lemma_cache_persist(
                                                        pre.functions_cache@,
                                                        self.functions_cache@,
                                                        pre.token_list@[j]->Name_0@,
                                                    );
                                                }
                                            }
                                        }
                                        return Err(e);
                                    },
                                };
                                proof {
                                    lemma_prefix_trans(
                                        old(self).token_list@,
                                        pre.token_list@,
                                        self.token_list@,
                                    );
                                    lemma_prefix_trans(
                                        old(self).functions_cache@,
                                        pre.functions_cache@,
                                        self.functions_cache@,
                                    );
                                    lemma_prefix_trans(
                                        old(self).parse_cache@,
                                        pre.parse_cache@,
                                        self.parse_cache@,
                                    );
                                    assert forall|j: int|
                                        old(self).token_list@.len() <= j
                                            < self.token_list@.len() implies self.token_list@[j]
                                        is Name by {
                                        if j < pre.token_list@.len() {
                                            assert(self.token_list@.subrange(
                                                0,
                                                pre.token_list@.len() as int,
                                            )[j] == self.token_list@[j]);
                                        }
                                    };
                                    assert forall|i: int|
                                        0 <= i < res@.len() && (#[trigger] res@[i])@
                                            is Def implies (cache_find(
                                        self.functions_cache@,
                                        res@[i]@->Def_1,
                                    ) is Some && cache_find(
                                        self.parse_cache@,
                                        res@[i]@->Def_0,
                                    ) is Some) by {
                                        lemma_cache_persist(
                                            pre.functions_cache@,
                                            self.functions_cache@,
                                            res@[i]@->Def_1,
                                        );
                                        lemma_cache_persist(
                                            pre.parse_cache@,
                                            self.parse_cache@,
                                            res@[i]@->Def_0,
                                        );
                                    }
                                    assert forall|j: int|
                                        old(self).token_list@.len() <= j
                                            < self.token_list@.len() implies cache_find(
                                        self.functions_cache@,
                                        (#[trigger] self.token_list@[j])->Name_0@,
                                    ) is Some by {
                                        if j < pre.token_list@.len() {
                                            assert(self.token_list@.subrange(
                                                0,
                                                pre.token_list@.len() as int,
                                            )[j] == self.token_list@[j]);
                                            lemma_cache_persist(
                                                pre.functions_cache@,
                                                self.functions_cache@,
                                                pre.token_list@[j]->Name_0@,
                                            );
                                        }
                                    }
                                }
                                match cache_lookup(&self.functions_cache, &name) {
                                    Some(_) => {},
                                    None => {
                                        let ghost fc = self.functions_cache@;
                                        self.functions_cache.push(
                                            (clone_chars(&name), func_code),
                                        );
                                        proof {
                                            assert(self.functions_cache@ =~= fc.push(
                                                self.functions_cache@.last(),
                                            ));
                                            lemma_prefix_push(
                                                old(self).functions_cache@,
                                                fc,
                                                self.functions_cache@.last(),
                                            );
                                            lemma_cache_append(
                                                fc,
                                                (self.functions_cache@.last().0,
                                                self.functions_cache@.last().1),
                                                name@,
                                                0,
                                            );
                                            assert forall|key: Seq<char>|
                                                cache_find(fc, key) is Some implies cache_find(
                                                self.functions_cache@,
                                                key,
                                            ) == cache_find(fc, key) by {
                                                lemma_cache_append(
                                                    fc,
                                                    (self.functions_cache@.last().0,
                                                    self.functions_cache@.last().1),
                                                    key,
                                                    0,
                                                );
                                            }
                                        }
                                    },
                                }
                                let ghost tl = self.token_list@;
                                let ghost gname = name@;
                                let ghost gbody = body@;
                                self.token_list.push(Matcher::Name(clone_chars(&name)));
                                proof {
                                    assert(self.token_list@ =~= tl.push(
                                        self.token_list@.last(),
                                    ));
                                    lemma_prefix_push(
                                        old(self).token_list@,
                                        tl,
                                        self.token_list@.last(),
                                    );
                                    assert forall|j: int|
                                        old(self).token_list@.len() <= j
                                            < self.token_list@.len() implies self.token_list@[j]
                                        is Name by {
                                        if j < tl.len() {
                                            assert(self.token_list@[j] == tl[j]);
                                        }
                                    };
                                    assert(cache_find(self.functions_cache@, gname) is Some);
                                    assert(cache_find(self.parse_cache@, gbody) is Some);
                                    assert forall|j: int|
                                        old(self).token_list@.len() <= j
                                            < self.token_list@.len() implies cache_find(
                                        self.functions_cache@,
                                        (#[trigger] self.token_list@[j])->Name_0@,
                                    ) is Some by {
                                        if j < tl.len() {
                                            assert(self.token_list@[j] == tl[j]);
                                        } else {
                                            assert(self.token_list@[j]->Name_0@ == gname);
                                        }
                                    }
                                }
                                let ghost rs = res@;
                                res.push(TinToken::Def(body, name));
                                proof {
                                    assert forall|i: int|
                                        0 <= i < res@.len() && (#[trigger] res@[i])@
                                            is Def implies (cache_find(
                                        self.functions_cache@,
                                        res@[i]@->Def_1,
                                    ) is Some && cache_find(
                                        self.parse_cache@,
                                        res@[i]@->Def_0,
                                    ) is Some) by {
                                        if i < rs.len() {
                                            assert(res@[i] == rs[i]);
                                        } else {
                                            assert(res@[i]@ == TokRep::Def(gbody, gname));
                                        }
                                    }
                                }
                            },
                            other => {
                                res.push(other);
                            },
                        }
                        pos += used;
                    },
                    None => {
                        let remainder = crate::lexer::sub_chars(text, pos, text.len());
                        proof {
                            assert(remainder@ == text@.subrange(pos as int, text@.len() as int));
                            assert(remainder@[0] == text@[pos as int]);
                            assert forall|k: int|
                                0 <= k < self.token_list@.len() implies (((#[trigger] self
                                .token_list@[k]) is Sym ==> !(self.token_list@[k]->Sym_0@.len()
                                >= 1 && occurs_at(
                                remainder@,
                                0,
                                self.token_list@[k]->Sym_0@,
                            ))) && (self.token_list@[k] is Name ==> !(
                            self.token_list@[k]->Name_0@.len() >= 1 && occurs_at(
                                remainder@,
                                0,
                                self.token_list@[k]->Name_0@,
                            )))) by {
                                if self.token_list@[k] is Sym {
                                    lemma_occurs_shift(
                                        text@,
                                        pos as int,
                                        self.token_list@[k]->Sym_0@,
                                    );
                                }
                                if self.token_list@[k] is Name {
                                    lemma_occurs_shift(
                                        text@,
                                        pos as int,
                                        self.token_list@[k]->Name_0@,
                                    );
                                }
                            }
                        }
                        return Err(ParseError { rest: remainder });
                    },
                }
            }
        }
        let ghost before = self.parse_cache@;
        self.parse_cache.push((clone_chars(text), clone_program(&res)));
        proof {
            let entry = (self.parse_cache@.last().0, self.parse_cache@.last().1);
            assert(self.parse_cache@ =~= before.push(entry));
            lemma_prefix_push(old(self).parse_cache@, before, entry);
            assert(before.is_prefix_of(self.parse_cache@)) by {
                assert(self.parse_cache@.subrange(0, before.len() as int) =~= before);
            }
            assert forall|i: int|
                0 <= i < res@.len() && (#[trigger] res@[i])@ is Def implies cache_find(
                self.parse_cache@,
                res@[i]@->Def_0,
            ) is Some by {
                lemma_cache_persist(before, self.parse_cache@, res@[i]@->Def_0);
            }
            lemma_cache_append(before, entry, text@, 0);
            assert forall|k: Seq<char>| #![auto]
                cache_find(self.parse_cache@, k) != cache_find(
                    old(self).parse_cache@,
                    k,
                ) implies (k.len() < text@.len() || k == text@) by {
                lemma_cache_append(before, entry, k, 0);
            }
        }
        Ok(res)
    }

    /// Runs a program against a stack: drives the instruction pointer
    /// left to right, dispatching each instruction; a failure is wrapped
    /// with the instruction's text and position and aborts the run.
    pub fn execute(
        &mut self,
        program: &Vec<TinToken>,
        parent: Option<&Vec<TinToken>>,
        stack: &mut Vec<TinValue>,
    ) -> (r: Result<(), RunError>)
        ensures
            final(self).policy == old(self).policy,
            old(self).output@.is_prefix_of(final(self).output@),
            program@.len() == 0 ==> r is Ok && final(stack)@ == old(stack)@ && *final(self)
                == *old(self),
            r is Ok && program@.len() == 1 && program@[0]@ is Int ==> final(stack)@ == old(
                stack,
            )@.push(TinValue::Int(program@[0]@->Int_0)),
            r is Ok && program@.len() == 1 && program@[0]@ is Float ==> final(stack)@ == old(
                stack,
            )@.push(TinValue::Float(program@[0]@->Float_0)),
            all_literals(toks(program@)) && program@.len() < 0x7fff_ffff_ffff_ffff ==> r is Ok
                && rep_seq(final(stack)@) == rep_seq(old(stack)@) + lit_reps(toks(program@))
                && *final(self) == *old(self),
    {
        self.execute_fueled(program, parent, stack, MAX_CALL_DEPTH)
    }

    /// The fueled worker behind `execute`: each named call, block entry
    /// or recursion spends one unit of call depth.
    #[verifier::loop_isolation(false)]
    pub fn execute_fueled(
        &mut self,
        program: &Vec<TinToken>,
        parent: Option<&Vec<TinToken>>,
        stack: &mut Vec<TinValue>,
        fuel: u64,
    ) -> (r: Result<(), RunError>)
        ensures
            final(self).policy == old(self).policy,
            old(self).output@.is_prefix_of(final(self).output@),
            program@.len() == 0 ==> r is Ok && final(stack)@ == old(stack)@ && *final(self)
                == *old(self),
            r is Ok && program@.len() == 1 && program@[0]@ is Int ==> final(stack)@ == old(
                stack,
            )@.push(TinValue::Int(program@[0]@->Int_0)),
            r is Ok && program@.len() == 1 && program@[0]@ is Float ==> final(stack)@ == old(
                stack,
            )@.push(TinValue::Float(program@[0]@->Float_0)),
            all_literals(toks(program@)) && program@.len() < 0x7fff_ffff_ffff_ffff ==> r is Ok
                && rep_seq(final(stack)@) == rep_seq(old(stack)@) + lit_reps(toks(program@))
                && *final(self) == *old(self),
        decreases fuel, 2int,
    {
        proof {
            assert(old(self).output@.is_prefix_of(old(self).output@)) by {
                assert(old(self).output@.subrange(0, old(self).output@.len() as int) =~= old(
                    self,
                ).output@);
            }
        }
        let mut ip: i64 = 0;
        let mut steps: u64 = 0;
        let n = program.len();
        while ip >= 0 && (ip as u64) < (n as u64)
            invariant
                n == program@.len(),
                self.policy == old(self).policy,
                old(self).output@.is_prefix_of(self.output@),
                program@.len() == 1 && program@[0]@ is Int && ip == 1 ==> stack@ == old(
                    stack,
                )@.push(TinValue::Int(program@[0]@->Int_0)),
                program@.len() == 1 && program@[0]@ is Float && ip == 1 ==> stack@ == old(
                    stack,
                )@.push(TinValue::Float(program@[0]@->Float_0)),
                program@.len() == 1 && (program@[0]@ is Int || program@[0]@ is Float) && ip == 0
                    ==> stack@ == old(stack)@,
                program@.len() == 1 && (program@[0]@ is Int || program@[0]@ is Float) ==> 0 <= ip
                    <= 1,
                program@.len() == 0 ==> *self == *old(self) && stack@ == old(stack)@,
                all_literals(toks(program@)) && program@.len() < 0x7fff_ffff_ffff_ffff ==> 0 <= ip
                    <= n && steps == ip && *self == *old(self) && rep_seq(stack@) == rep_seq(
                    old(stack)@,
                ) + lit_reps(toks(program@)).take(ip as int),
            decreases MAX_STEPS - steps,
        {
            proof {
                broadcast use crate::value::lemma_rep_seq;

                if all_literals(toks(program@)) && program@.len() < 0x7fff_ffff_ffff_ffff {
                    assert(is_literal(toks(program@)[ip as int]));
                }
            }
            if steps >= MAX_STEPS {
                return Err(RunError { kind: TinError::OutOfFuel, instr: Vec::new(), pos: ip });
            }
            steps += 1;
            let token = &program[ip as usize];
            let ghost pre_stack = stack@;
            let ghost pre_ip = ip;
            let step = self.step_token(token, program, parent, stack, &mut ip, fuel);
            match step {
                Ok(_) => {},
                Err(e) => {
                    return Err(e);
                },
            }
            if ip == i64::MAX {
                return Err(RunError { kind: TinError::OutOfFuel, instr: Vec::new(), pos: ip });
            }
            ip += 1;
            proof {
                broadcast use crate::value::lemma_rep_seq;

                if all_literals(toks(program@)) && program@.len() < 0x7fff_ffff_ffff_ffff {
                    let ghost rhs = rep_seq(old(stack)@) + lit_reps(toks(program@)).take(
                        ip as int,
                    );
                    let ghost prev = rep_seq(old(stack)@) + lit_reps(toks(program@)).take(
                        pre_ip as int,
                    );
                    assert(0 <= pre_ip < program@.len());
                    assert(token@ == program@[pre_ip as int]@);
                    assert(toks(program@)[pre_ip as int] == program@[pre_ip as int]@);
                    assert(is_literal(toks(program@)[pre_ip as int]));
                    assert(stack@.len() == pre_stack.len() + 1 && stack@.drop_last()
                        == pre_stack) by {
                        if token@ is Int || token@ is Float {
                            assert(stack@.drop_last() =~= pre_stack);
                        }
                    }
                    assert(rep_of(stack@.last()) == literal_rep(token@));
                    assert(rep_seq(pre_stack).len() == old(stack)@.len() + pre_ip);
                    assert forall|k: int| 0 <= k < stack@.len() implies rep_seq(stack@)[k]
                        == rhs[k] by {
                        if k < pre_stack.len() {
                            assert(stack@[k] == stack@.drop_last()[k]);
                            assert(rep_seq(stack@)[k] == rep_seq(pre_stack)[k]);
                            assert(rep_seq(pre_stack)[k] == prev[k]);
                            if k >= old(stack)@.len() {
                                assert(prev[k] == lit_reps(toks(program@)).take(
                                    pre_ip as int,
                                )[k - old(stack)@.len()]);
                                assert(rhs[k] == lit_reps(toks(program@)).take(
                                    ip as int,
                                )[k - old(stack)@.len()]);
                                assert(lit_reps(toks(program@))[k - old(stack)@.len()]
                                    == prev[k]);
                            }
                        } else {
                            assert(k == stack@.len() - 1);
                            assert(stack@[k] == stack@.last());
                            assert(rhs[k] == lit_reps(toks(program@)).take(
                                ip as int,
                            )[pre_ip as int]);
                            assert(lit_reps(toks(program@))[pre_ip as int] == literal_rep(
                                toks(program@)[pre_ip as int],
                            ));
                        }
                    }
                    assert(rep_seq(stack@) =~= rhs);
                }
            }
        }
        proof {
            broadcast use crate::value::lemma_rep_seq;

            if all_literals(toks(program@)) && program@.len() < 0x7fff_ffff_ffff_ffff {
                assert(lit_reps(toks(program@)).take(ip as int) =~= lit_reps(toks(program@)));
            }
        }
        Ok(())
    }

    /// Dispatches one token at the current instruction pointer.
    #[verifier::loop_isolation(false)]
    fn step_token(
        &mut self,
        token: &TinToken,
        program: &Vec<TinToken>,
        parent: Option<&Vec<TinToken>>,
        stack: &mut Vec<TinValue>,
        ip: &mut i64,
        fuel: u64,
    ) -> (r: Result<(), RunError>)
        ensures
            final(self).policy == old(self).policy,
            old(self).output@.is_prefix_of(final(self).output@),
            token@ is Int ==> r is Ok && final(stack)@ == old(stack)@.push(
                TinValue::Int(token@->Int_0),
            ) && *final(ip) == *old(ip) && *final(self) == *old(self),
            token@ is Float ==> r is Ok && final(stack)@ == old(stack)@.push(
                TinValue::Float(token@->Float_0),
            ) && *final(ip) == *old(ip) && *final(self) == *old(self),
            token@ is Str ==> r is Ok && final(stack)@.len() == old(stack)@.len() + 1 && final(
                stack
            )@.drop_last() == old(stack)@ && final(stack)@.last()@ == RepVal::IntVector(
                code_points(token@->Str_0),
            ) && *final(ip) == *old(ip) && *final(self) == *old(self),
            token@ is Def ==> r is Ok && final(stack)@ == old(stack)@ && *final(ip) == *old(ip)
                && *final(self) == *old(self),
            r is Err && wraps_own_errors(token@) ==> r->Err_0.pos == *old(ip),
            (token@ is DefineVar || token@ is RedefineVar || token@ is DeleteVar || token@
                is GetVar) ==> (*final(ip) == *old(ip) && final(self).loop_stack@ == old(
                self).loop_stack@ && final(self).map_stack@ == old(self).map_stack@ && final(
                self).storer_stack@ == old(self).storer_stack@ && final(self).token_list@ == old(
                self).token_list@ && final(self).functions_cache@ == old(self).functions_cache@
                && final(self).parse_cache@ == old(self).parse_cache@ && final(self).output@
                == old(self).output@),
            token@ is DefineVar ==> ((r is Ok <==> old(stack)@.len() > 0) && (r is Err ==> r
                ->Err_0.kind == TinError::EmptyStack && final(stack)@ == old(stack)@ && *final(
                self) == *old(self)) && (r is Ok ==> final(stack)@ == old(stack)@.drop_last())
                && (r is Ok && var_find(old(self).variables@, token@->DefineVar_0) is Some
                ==> final(self).variables@ == old(self).variables@.update(
                var_find(old(self).variables@, token@->DefineVar_0)->Some_0,
                final(self).variables@[var_find(
                    old(self).variables@,
                    token@->DefineVar_0,
                )->Some_0],
            ) && final(self).variables@[var_find(
                old(self).variables@,
                token@->DefineVar_0,
            )->Some_0].0@ == old(self).variables@[var_find(
                old(self).variables@,
                token@->DefineVar_0,
            )->Some_0].0@ && final(self).variables@[var_find(
                old(self).variables@,
                token@->DefineVar_0,
            )->Some_0].1@ == old(self).variables@[var_find(
                old(self).variables@,
                token@->DefineVar_0,
            )->Some_0].1@.push(old(stack)@.last())) && (r is Ok && var_find(
                old(self).variables@,
                token@->DefineVar_0,
            ) is None ==> final(self).variables@.len() == old(self).variables@.len() + 1
                && final(self).variables@.drop_last() == old(self).variables@ && final(
                self).variables@.last().0@ == token@->DefineVar_0 && final(
                self).variables@.last().1@ == seq![old(stack)@.last()])),
            token@ is RedefineVar ==> ((r is Ok <==> old(stack)@.len() > 0) && (r is Err ==> r
                ->Err_0.kind == TinError::EmptyStack && final(stack)@ == old(stack)@ && *final(
                self) == *old(self)) && (r is Ok ==> final(stack)@ == old(stack)@.drop_last())
                && (r is Ok && var_find(old(self).variables@, token@->RedefineVar_0) is Some
                ==> final(self).variables@ == old(self).variables@.update(
                var_find(old(self).variables@, token@->RedefineVar_0)->Some_0,
                final(self).variables@[var_find(
                    old(self).variables@,
                    token@->RedefineVar_0,
                )->Some_0],
            ) && final(self).variables@[var_find(
                old(self).variables@,
                token@->RedefineVar_0,
            )->Some_0].0@ == old(self).variables@[var_find(
                old(self).variables@,
                token@->RedefineVar_0,
            )->Some_0].0@ && final(self).variables@[var_find(
                old(self).variables@,
                token@->RedefineVar_0,
            )->Some_0].1@ == (if old(self).variables@[var_find(
                old(self).variables@,
                token@->RedefineVar_0,
            )->Some_0].1@.len() == 0 {
                seq![old(stack)@.last()]
            } else {
                old(self).variables@[var_find(
                    old(self).variables@,
                    token@->RedefineVar_0,
                )->Some_0].1@.update(
                    old(self).variables@[var_find(
                        old(self).variables@,
                        token@->RedefineVar_0,
                    )->Some_0].1@.len() - 1,
                    old(stack)@.last(),
                )
            })) && (r is Ok && var_find(old(self).variables@, token@->RedefineVar_0) is None
                ==> final(self).variables@.len() == old(self).variables@.len() + 1 && final(
                self).variables@.drop_last() == old(self).variables@ && final(
                self).variables@.last().0@ == token@->RedefineVar_0 && final(
                self).variables@.last().1@ == seq![old(stack)@.last()])),
            token@ is DeleteVar ==> (r is Ok && final(stack)@ == old(stack)@ && (var_find(
                old(self).variables@,
                token@->DeleteVar_0,
            ) is None ==> final(self).variables@ == old(self).variables@) && (var_find(
                old(self).variables@,
                token@->DeleteVar_0,
            ) is Some && old(self).variables@[var_find(
                old(self).variables@,
                token@->DeleteVar_0,
            )->Some_0].1@.len() > 1 ==> final(self).variables@ == old(self).variables@.update(
                var_find(old(self).variables@, token@->DeleteVar_0)->Some_0,
                final(self).variables@[var_find(
                    old(self).variables@,
                    token@->DeleteVar_0,
                )->Some_0],
            ) && final(self).variables@[var_find(
                old(self).variables@,
                token@->DeleteVar_0,
            )->Some_0].0@ == old(self).variables@[var_find(
                old(self).variables@,
                token@->DeleteVar_0,
            )->Some_0].0@ && final(self).variables@[var_find(
                old(self).variables@,
                token@->DeleteVar_0,
            )->Some_0].1@ == old(self).variables@[var_find(
                old(self).variables@,
                token@->DeleteVar_0,
            )->Some_0].1@.drop_last()) && (var_find(
                old(self).variables@,
                token@->DeleteVar_0,
            ) is Some && old(self).variables@[var_find(
                old(self).variables@,
                token@->DeleteVar_0,
            )->Some_0].1@.len() <= 1 ==> final(self).variables@ == old(self).variables@.remove(
                var_find(old(self).variables@, token@->DeleteVar_0)->Some_0,
            ))),
            token@ is GetVar ==> ((r is Ok <==> (var_find(
                old(self).variables@,
                token@->GetVar_0,
            ) is Some && old(self).variables@[var_find(
                old(self).variables@,
                token@->GetVar_0,
            )->Some_0].1@.len() > 0)) && *final(self) == *old(self) && (r is Ok ==> final(
                stack)@.len() == old(stack)@.len() + 1 && final(stack)@.drop_last() == old(
                stack)@ && final(stack)@.last()@ == old(self).variables@[var_find(
                old(self).variables@,
                token@->GetVar_0,
            )->Some_0].1@.last()@) && (r is Err ==> r->Err_0.kind == TinError::UnboundVariable
                && final(stack)@ == old(stack)@)),
            (token@ is Call || token@ is Block || token@ is RecBlock) && fuel == 0 ==> r is Err
                && r->Err_0.kind == TinError::OutOfFuel && *final(self) == *old(self) && final(
                stack)@ == old(stack)@ && *final(ip) == *old(ip),
            token@ is Call && fuel > 0 && cache_find(
                old(self).functions_cache@,
                token@->Call_0,
            ) is None ==> r is Err && r->Err_0.kind == TinError::UnboundVariable && *final(self)
                == *old(self) && final(stack)@ == old(stack)@ && *final(ip) == *old(ip),
            (token@ is Call || token@ is Block || token@ is RecBlock) ==> *final(ip) == *old(ip),
        decreases fuel, 1int,
    {
        proof {
            assert(old(self).output@.is_prefix_of(old(self).output@)) by {
                assert(old(self).output@.subrange(0, old(self).output@.len() as int) =~= old(
                    self,
                ).output@);
            }
        }
        match token {
            TinToken::Int(v) => {
                stack.push(TinValue::Int(*v));
                Ok(())
            },
            TinToken::Float(b) => {
                stack.push(TinValue::Float(*b));
                Ok(())
            },
            TinToken::Str(s) => {
                let mut codes: Vec<i64> = Vec::new();
                let k = s.len();
                let mut i: usize = 0;
                while i < k
                    invariant
                        0 <= i <= k,
                        k == s@.len(),
                        codes@ == code_points(s@).subrange(0, i as int),
                    decreases k - i,
                {
                    codes.push(s[i] as u32 as i64);
                    proof {
                        assert(codes@ =~= code_points(s@).subrange(0, i + 1));
                    }
                    i += 1;
                }
                proof {
                    assert(codes@ =~= code_points(s@));
                }
                stack.push(TinValue::IntVector(codes));
                Ok(())
            },
            TinToken::DefineVar(name) => {
                let v = match stack.pop() {
                    Some(v) => v,
                    None => {
                        return Err(self.fail(TinError::EmptyStack, name, ip));
                    },
                };
                let ghost gv = v;
                match var_lookup(&self.variables, name) {
                    Some(i) => {
                        let mut entry = self.variables.remove(i);
                        entry.1.push(v);
                        self.variables.insert(i, entry);
                        proof {
                            assert(self.variables@ =~= old(self).variables@.update(
                                i as int,
                                self.variables@[i as int],
                            ));
                        }
                    },
                    None => {
                        let mut bindings: Vec<TinValue> = Vec::new();
                        bindings.push(v);
                        self.variables.push((clone_chars(name), bindings));
                        proof {
                            assert(self.variables@.drop_last() =~= old(self).variables@);
                        }
                    },
                }
                Ok(())
            },
            TinToken::RedefineVar(name) => {
                let v = match stack.pop() {
                    Some(v) => v,
                    None => {
                        return Err(self.fail(TinError::EmptyStack, name, ip));
                    },
                };
                let ghost gv = v;
                match var_lookup(&self.variables, name) {
                    Some(i) => {
                        let mut entry = self.variables.remove(i);
                        let k = entry.1.len();
                        if k == 0 {
                            entry.1.push(v);
                            proof {
                                assert(entry.1@ =~= seq![gv]);
                            }
                        } else {
                            entry.1.set(k - 1, v);
                        }
                        self.variables.insert(i, entry);
                        proof {
                            assert(self.variables@ =~= old(self).variables@.update(
                                i as int,
                                self.variables@[i as int],
                            ));
                        }
                    },
                    None => {
                        let mut bindings: Vec<TinValue> = Vec::new();
                        bindings.push(v);
                        self.variables.push((clone_chars(name), bindings));
                        proof {
                            assert(self.variables@.drop_last() =~= old(self).variables@);
                        }
                    },
                }
                Ok(())
            },
            TinToken::DeleteVar(name) => {
                match var_lookup(&self.variables, name) {
                    Some(i) => {
                        let mut entry = self.variables.remove(i);
                        entry.1.pop();
                        if entry.1.len() > 0 {
                            self.variables.insert(i, entry);
                            proof {
                                assert(self.variables@ =~= old(self).variables@.update(
                                    i as int,
                                    self.variables@[i as int],
                                ));
                            }
                        } else {
                            proof {
                                assert(self.variables@ =~= old(self).variables@.remove(
                                    i as int,
                                ));
                            }
                        }
                    },
                    None => {},
                }
                Ok(())
            },
            TinToken::GetVar(name) => {
                match var_lookup(&self.variables, name) {
                    Some(i) => {
                        let k = self.variables[i].1.len();
                        if k == 0 {
                            return Err(self.fail(TinError::UnboundVariable, name, ip));
                        }
                        let v = clone_value(&self.variables[i].1[k - 1]);
                        stack.push(v);
                        Ok(())
                    },
                    None => Err(self.fail(TinError::UnboundVariable, name, ip)),
                }
            },
            TinToken::Call(name) => {
                if fuel == 0 {
                    return Err(self.fail(TinError::OutOfFuel, name, ip));
                }
                let prog = match cache_lookup(&self.functions_cache, name) {
                    Some(p) => p,
                    None => {
                        return Err(self.fail(TinError::UnboundVariable, name, ip));
                    },
                };
                match self.execute_fueled(&prog, None, stack, fuel - 1) {
                    Ok(_) => Ok(()),
                    Err(e) => Err(e),
                }
            },
            TinToken::Block(inner) => {
                if fuel == 0 {
                    return Err(self.fail(TinError::OutOfFuel, inner, ip));
                }
                let prog = match self.parse_text(inner) {
                    Ok(p) => p,
                    Err(_) => {
                        return Err(self.fail(TinError::UnboundVariable, inner, ip));
                    },
                };
                match self.execute_fueled(&prog, Some(program), stack, fuel - 1) {
                    Ok(_) => Ok(()),
                    Err(e) => Err(e),
                }
            },
            TinToken::RecBlock(inner) => {
                if fuel == 0 {
                    return Err(self.fail(TinError::OutOfFuel, inner, ip));
                }
                let prog = match self.parse_text(inner) {
                    Ok(p) => p,
                    Err(_) => {
                        return Err(self.fail(TinError::UnboundVariable, inner, ip));
                    },
                };
                let prog2 = clone_program(&prog);
                match self.execute_fueled(&prog, Some(&prog2), stack, fuel - 1) {
                    Ok(_) => Ok(()),
                    Err(e) => Err(e),
                }
            },
            TinToken::Def(_, _) => Ok(()),
            TinToken::Op(code, text) => self.step_op(*code, text, program, parent, stack, ip, fuel),
        }
    }

        /// Wraps an instruction-level error with its text and position.
    fn fail(&self, kind: TinError, instr: &Vec<char>, ip: &i64) -> (r: RunError)
        ensures
            r.kind == kind,
            r.instr@ == instr@,
            r.pos == *ip,
    {
        RunError { kind, instr: clone_chars(instr), pos: *ip }
    }

    /// Dispatches one instruction of the closed opcode set.
    #[verifier::loop_isolation(false)]
    #[verifier::rlimit(100)]
    fn step_op(
        &mut self,
        code: Opcode,
        text: &Vec<char>,
        program: &Vec<TinToken>,
        parent: Option<&Vec<TinToken>>,
        stack: &mut Vec<TinValue>,
        ip: &mut i64,
        fuel: u64,
    ) -> (r: Result<(), RunError>)
        ensures
            final(self).policy == old(self).policy,
            old(self).output@.is_prefix_of(final(self).output@),
            !is_control_op(code) ==> *final(ip) == *old(ip),
            r is Err && code != Opcode::Recurse ==> r->Err_0.pos == *old(ip) && r->Err_0.instr@
                == text@,
            code == Opcode::Skip && *old(ip) < i64::MAX ==> ((r is Ok <==> old(stack)@.len() > 0)
                && (r is Ok ==> final(stack)@ == old(stack)@.drop_last() && *final(ip) as int == (
            if crate::value::truthy_abs(old(stack)@.last().am()) {
                *old(ip) as int
            } else {
                *old(ip) + 1
            }))),
            code == Opcode::SkipInv && *old(ip) < i64::MAX ==> ((r is Ok <==> old(stack)@.len()
                > 0) && (r is Ok ==> final(stack)@ == old(stack)@.drop_last() && *final(ip) as int
                == (
            if crate::value::truthy_abs(old(stack)@.last().am()) {
                *old(ip) + 1
            } else {
                *old(ip) as int
            }))),
            code == Opcode::SkipDup && *old(ip) < i64::MAX ==> ((r is Ok <==> old(stack)@.len()
                > 0) && (r is Ok ==> final(stack)@ == old(stack)@ && *final(ip) as int == (
            if crate::value::truthy_abs(old(stack)@.last().am()) {
                *old(ip) as int
            } else {
                *old(ip) + 1
            }))),
            code == Opcode::Recurse ==> *final(ip) == *old(ip),
            code == Opcode::Recurse && fuel == 0 ==> r is Err && r->Err_0.kind
                == TinError::OutOfFuel && r->Err_0.pos == *old(ip) && r->Err_0.instr@ == text@
                && *final(self) == *old(self) && final(stack)@ == old(stack)@,
        decreases fuel, 0int,
    {
        proof {
            assert(old(self).output@.is_prefix_of(old(self).output@)) by {
                assert(old(self).output@.subrange(0, old(self).output@.len() as int) =~= old(
                    self,
                ).output@);
            }
        }
        let outcome: Result<(), TinError> = match code {
            Opcode::Drop => op_drop(stack),
            Opcode::Dup => op_dup(stack),
            Opcode::Swap => op_swap(stack),
            Opcode::Copy => op_copy(stack),
            Opcode::Unpack => op_unpack(stack),
            Opcode::Skip => {
                match stack.pop() {
                    Some(v) => {
                        if !v.truthy() && *ip < i64::MAX {
                            *ip += 1;
                        }
                        Ok(())
                    },
                    None => Err(TinError::EmptyStack),
                }
            },
            Opcode::SkipDup => {
                if stack.len() == 0 {
                    Err(TinError::EmptyStack)
                } else {
                    let t = stack[stack.len() - 1].truthy();
                    if !t && *ip < i64::MAX {
                        *ip += 1;
                    }
                    Ok(())
                }
            },
            Opcode::SkipInv => {
                match stack.pop() {
                    Some(v) => {
                        if v.truthy() && *ip < i64::MAX {
                            *ip += 1;
                        }
                        Ok(())
                    },
                    None => Err(TinError::EmptyStack),
                }
            },
            Opcode::ForeachInit => self.foreach_init(stack, ip),
            Opcode::ForeachEnd => self.foreach_end(ip),
            Opcode::StorerInit => {
                self.storer_stack.push(stack.len());
                Ok(())
            },
            Opcode::StorerEnd => self.storer_end(stack),
            Opcode::MapInit => self.map_init(stack, ip),
            Opcode::MapEnd => self.map_end(stack, ip),
            Opcode::Recurse => {
                if fuel == 0 {
                    Err(TinError::OutOfFuel)
                } else {
                    let run = match parent {
                        Some(p) => {
                            let prog = clone_program(p);
                            self.execute_fueled(&prog, None, stack, fuel - 1)
                        },
                        None => {
                            let prog = clone_program(program);
                            self.execute_fueled(&prog, None, stack, fuel - 1)
                        },
                    };
                    match run {
                        Ok(_) => Ok(()),
                        Err(e) => {
                            return Err(e);
                        },
                    }
                }
            },
            Opcode::Bin(op) => {
                let a = match stack.pop() {
                    Some(v) => v,
                    None => {
                        return Err(self.fail(TinError::EmptyStack, text, ip));
                    },
                };
                let b = match stack.pop() {
                    Some(v) => v,
                    None => {
                        return Err(self.fail(TinError::EmptyStack, text, ip));
                    },
                };
                match apply_bin(op, &a, &b) {
                    Ok(v) => {
                        stack.push(v);
                        Ok(())
                    },
                    Err(e) => Err(e),
                }
            },
            Opcode::Un(op) => {
                let a = match stack.pop() {
                    Some(v) => v,
                    None => {
                        return Err(self.fail(TinError::EmptyStack, text, ip));
                    },
                };
                let v = apply_un(op, &a);
                stack.push(v);
                Ok(())
            },
            Opcode::Inc => {
                let a = match stack.pop() {
                    Some(v) => v,
                    None => {
                        return Err(self.fail(TinError::EmptyStack, text, ip));
                    },
                };
                let one = TinValue::Int(1);
                match apply_bin(BinOp::Add, &a, &one) {
                    Ok(v) => {
                        stack.push(v);
                        Ok(())
                    },
                    Err(e) => Err(e),
                }
            },
            Opcode::Dec => {
                let a = match stack.pop() {
                    Some(v) => v,
                    None => {
                        return Err(self.fail(TinError::EmptyStack, text, ip));
                    },
                };
                let one = TinValue::Int(1);
                match apply_bin(BinOp::Sub, &a, &one) {
                    Ok(v) => {
                        stack.push(v);
                        Ok(())
                    },
                    Err(e) => Err(e),
                }
            },
            Opcode::Rand => {
                stack.push(TinValue::Float(fl_rand_unit()));
                Ok(())
            },
            Opcode::EqFull => {
                let a = match stack.pop() {
                    Some(v) => v,
                    None => {
                        return Err(self.fail(TinError::EmptyStack, text, ip));
                    },
                };
                let b = match stack.pop() {
                    Some(v) => v,
                    None => {
                        return Err(self.fail(TinError::EmptyStack, text, ip));
                    },
                };
                let e = eq_value(&a, &b);
                stack.push(TinValue::Int(
                    if e {
                        1
                    } else {
                        0
                    },
                ));
                Ok(())
            },
            Opcode::AnyOf => op_any(stack, &self.policy),
            Opcode::NoneOf => op_none(stack, &self.policy),
            Opcode::AllOf => op_all(stack, &self.policy),
            Opcode::Iota => op_iota(stack),
            Opcode::Boxed => op_boxed(stack),
            Opcode::GetElem => op_get(stack),
            Opcode::GetElemNc => op_get_nc(stack),
            Opcode::SetElem => op_set(stack),
            Opcode::SumAll => op_sum_all(stack, &self.policy),
            Opcode::MulAll => op_mul_all(stack, &self.policy),
            Opcode::Len => op_len(stack),
            Opcode::Max => op_extremum(stack, &self.policy, true),
            Opcode::Min => op_extremum(stack, &self.policy, false),
            Opcode::Count => op_count(stack, false),
            Opcode::CountNc => op_count(stack, true),
            Opcode::IndexOf => op_index_of(stack, false),
            Opcode::IndexOfNc => op_index_of(stack, true),
            Opcode::FromIndex => op_from_index(stack),
            Opcode::SortAsc => op_sort(stack, false),
            Opcode::SortIdxAsc => op_sort_idx(stack, false),
            Opcode::SortDesc => op_sort(stack, true),
            Opcode::SortIdxDesc => op_sort_idx(stack, true),
            Opcode::Unique => crate::ops_misc::op_unique(stack),
            Opcode::Counts => crate::ops_misc::op_counts(stack),
            Opcode::Append => op_append(stack),
            Opcode::Merge => op_merge(stack),
            Opcode::Cartesian => op_cartesian(stack),
            Opcode::Zip => op_zip(stack),
            Opcode::Flatten => crate::ops_misc::op_flatten(stack),
            Opcode::Reverse => op_reverse(stack),
            Opcode::Window => op_window(stack),
            Opcode::DropFirst => op_drop_first(stack),
            Opcode::DropLast => op_drop_last(stack),
            Opcode::Print => {
                let r = op_print(stack, &mut self.output, false);
                proof {
                    assert(self.output@.subrange(0, old(self).output@.len() as int) =~= old(
                        self,
                    ).output@);
                    lemma_concat_prefix(old(self).output@, self.output@);
                }
                r
            },
            Opcode::Println => {
                let r = op_print(stack, &mut self.output, true);
                proof {
                    assert(self.output@.subrange(0, old(self).output@.len() as int) =~= old(
                        self,
                    ).output@);
                    lemma_concat_prefix(old(self).output@, self.output@);
                }
                r
            },
            Opcode::PrintStr => {
                let r = op_print_str(stack, &mut self.output, false);
                proof {
                    assert(self.output@.subrange(0, old(self).output@.len() as int) =~= old(
                        self,
                    ).output@);
                    lemma_concat_prefix(old(self).output@, self.output@);
                }
                r
            },
            Opcode::PrintlnStr => {
                let r = op_print_str(stack, &mut self.output, true);
                proof {
                    assert(self.output@.subrange(0, old(self).output@.len() as int) =~= old(
                        self,
                    ).output@);
                    lemma_concat_prefix(old(self).output@, self.output@);
                }
                r
            },
        };
        match outcome {
            Ok(_) => Ok(()),
            Err(kind) => Err(self.fail(kind, text, ip)),
        }
    }

    /// Whether the top foreach context was opened at this position.
    pub open spec fn loop_revisit(&self, ip: i64) -> bool {
        self.loop_stack@.len() > 0 && self.loop_stack@.last().pos == ip
    }

    /// Whether the top map context was opened at this position.
    pub open spec fn map_revisit(&self, ip: i64) -> bool {
        self.map_stack@.len() > 0 && self.map_stack@.last().pos == ip
    }

    /// Foreach open: a fresh context for a popped vector, or the next
    /// index of the context already active at this position; pushes the
    /// current element.
    fn foreach_init(&mut self, stack: &mut Vec<TinValue>, ip: &mut i64) -> (r: Result<
        (),
        TinError,
    >)
        ensures
            final(self).policy == old(self).policy,
            final(self).output@ == old(self).output@,
            *final(ip) == *old(ip),
            final(self).storer_stack@ == old(self).storer_stack@,
            final(self).map_stack@ == old(self).map_stack@,
            final(self).variables@ == old(self).variables@,
            !old(self).loop_revisit(*old(ip)) ==> ((r is Ok <==> (old(stack)@.len() > 0
                && rep_is_vec(old(stack)@.last()@) && rep_len(old(stack)@.last()@) > 0)) && (r
                is Ok ==> final(self).loop_stack@.len() == old(self).loop_stack@.len() + 1
                && final(self).loop_stack@.drop_last() == old(self).loop_stack@ && final(
                self).loop_stack@.last().pos == *old(ip) && final(self).loop_stack@.last().idx
                == 0 && final(self).loop_stack@.last().arr@ == old(stack)@.last()@ && final(
                stack)@.len() == old(stack)@.len() && final(stack)@.drop_last() == old(
                stack)@.drop_last() && final(stack)@.last()@ == rep_elem(old(stack)@.last()@, 0))
                && (r is Err ==> r->Err_0 == (if old(stack)@.len() == 0 {
                TinError::EmptyStack
            } else if !rep_is_vec(old(stack)@.last()@) {
                TinError::NotAVector
            } else {
                TinError::EmptyVector
            })) && (r is Err && !(old(stack)@.len() > 0 && rep_is_vec(old(stack)@.last()@))
                ==> final(stack)@ == old(stack)@ && final(self).loop_stack@ == old(
                self).loop_stack@) && (r is Err && old(stack)@.len() > 0 && rep_is_vec(
                old(stack)@.last()@,
            ) ==> final(stack)@ == old(stack)@.drop_last() && final(self).loop_stack@.len()
                == old(self).loop_stack@.len() + 1 && final(self).loop_stack@.drop_last() == old(
                self).loop_stack@ && final(self).loop_stack@.last().idx == 0 && final(
                self).loop_stack@.last().arr@ == old(stack)@.last()@ && final(
                self).loop_stack@.last().pos == *old(ip))),
            old(self).loop_revisit(*old(ip)) ==> ((r is Ok <==> (old(self).loop_stack@.last().idx
                < usize::MAX && old(self).loop_stack@.last().idx + 1 < rep_len(
                old(self).loop_stack@.last().arr@,
            ))) && (old(self).loop_stack@.last().idx != usize::MAX ==> final(
                self).loop_stack@.len() == old(self).loop_stack@.len() && final(
                self).loop_stack@.drop_last() == old(self).loop_stack@.drop_last() && final(
                self).loop_stack@.last().pos == old(self).loop_stack@.last().pos && final(
                self).loop_stack@.last().arr@ == old(self).loop_stack@.last().arr@ && final(
                self).loop_stack@.last().idx == old(self).loop_stack@.last().idx + 1) && (old(
                self).loop_stack@.last().idx == usize::MAX ==> final(self).loop_stack@ == old(
                self).loop_stack@.drop_last()) && (r is Ok ==> final(stack)@.len() == old(
                stack)@.len() + 1 && final(stack)@.drop_last() == old(stack)@ && final(
                stack)@.last()@ == rep_elem(
                old(self).loop_stack@.last().arr@,
                old(self).loop_stack@.last().idx + 1,
            )) && (r is Err ==> final(stack)@ == old(stack)@ && r->Err_0 == (if old(
                self).loop_stack@.last().idx == usize::MAX {
                TinError::IndexOutOfRange
            } else {
                TinError::EmptyVector
            }))),
    {
        let len = self.loop_stack.len();
        let revisit = len > 0 && self.loop_stack[len - 1].pos == *ip;
        if revisit {
            let mut frame = match self.loop_stack.pop() {
                Some(f) => f,
                None => {
                    return Err(TinError::NoContext);
                },
            };
            if frame.idx == usize::MAX {
                return Err(TinError::IndexOutOfRange);
            }
            frame.idx = frame.idx + 1;
            self.loop_stack.push(frame);
        } else {
            let top = match stack.pop() {
                Some(v) => v,
                None => {
                    return Err(TinError::EmptyStack);
                },
            };
            let arr = match top {
                TinValue::Vector(v) => TinVector::Mixed(v),
                TinValue::IntVector(v) => TinVector::Int(v),
                TinValue::FloatVector(v) => TinVector::Float(v),
                other => {
                    stack.push(other);
                    return Err(TinError::NotAVector);
                },
            };
            self.loop_stack.push(LoopFrame { pos: *ip, arr, idx: 0 });
        }
        let len2 = self.loop_stack.len();
        let frame = &self.loop_stack[len2 - 1];
        let k = frame.arr.len();
        if frame.idx >= k {
            return Err(TinError::EmptyVector);
        }
        let e = frame.arr.get(frame.idx);
        stack.push(e);
        Ok(())
    }

    /// Foreach close: rewinds to just before the open while elements
    /// remain, and pops the context when exhausted.
    fn foreach_end(&mut self, ip: &mut i64) -> (r: Result<(), TinError>)
        ensures
            final(self).policy == old(self).policy,
            final(self).output@ == old(self).output@,
            r is Err ==> *final(ip) == *old(ip),
            final(self).storer_stack@ == old(self).storer_stack@,
            final(self).map_stack@ == old(self).map_stack@,
            final(self).variables@ == old(self).variables@,
            r is Err <==> (old(self).loop_stack@.len() == 0 || (rep_len(
                old(self).loop_stack@.last().arr@,
            ) > 0 && old(self).loop_stack@.last().idx < rep_len(
                old(self).loop_stack@.last().arr@,
            ) - 1 && old(self).loop_stack@.last().pos == i64::MIN)),
            r is Err ==> r->Err_0 == TinError::NoContext && final(self).loop_stack@ == old(
                self).loop_stack@,
            r is Ok && rep_len(old(self).loop_stack@.last().arr@) > 0 && old(
                self).loop_stack@.last().idx < rep_len(old(self).loop_stack@.last().arr@) - 1
                ==> *final(ip) == old(self).loop_stack@.last().pos - 1 && final(
                self).loop_stack@ == old(self).loop_stack@,
            r is Ok && !(rep_len(old(self).loop_stack@.last().arr@) > 0 && old(
                self).loop_stack@.last().idx < rep_len(old(self).loop_stack@.last().arr@) - 1)
                ==> *final(ip) == *old(ip) && final(self).loop_stack@ == old(
                self).loop_stack@.drop_last(),
    {
        let len = self.loop_stack.len();
        if len == 0 {
            return Err(TinError::NoContext);
        }
        let k = self.loop_stack[len - 1].arr.len();
        let idx = self.loop_stack[len - 1].idx;
        if k > 0 && idx < k - 1 {
            let pos = self.loop_stack[len - 1].pos;
            if pos == i64::MIN {
                return Err(TinError::NoContext);
            }
            *ip = pos - 1;
        } else {
            self.loop_stack.pop();
        }
        Ok(())
    }

    /// Capture close: drains everything pushed since the mark into one
    /// vector (specializing when homogeneous) and pushes it.
    #[verifier::loop_isolation(false)]
    fn storer_end(&mut self, stack: &mut Vec<TinValue>) -> (r: Result<(), TinError>)
        ensures
            final(self).policy == old(self).policy,
            final(self).output@ == old(self).output@,
            final(self).loop_stack@ == old(self).loop_stack@,
            final(self).map_stack@ == old(self).map_stack@,
            final(self).variables@ == old(self).variables@,
            r is Ok <==> (old(self).storer_stack@.len() > 0 && old(self).storer_stack@.last()
                <= old(stack)@.len()),
            r is Err ==> final(stack)@ == old(stack)@ && r->Err_0 == (if old(
                self).storer_stack@.len() == 0 {
                TinError::NoContext
            } else {
                TinError::CaptureUnderflow
            }),
            old(self).storer_stack@.len() > 0 ==> final(self).storer_stack@ == old(
                self).storer_stack@.drop_last(),
            old(self).storer_stack@.len() == 0 ==> final(self).storer_stack@ == old(
                self).storer_stack@,
            r is Ok ==> final(stack)@.len() == old(self).storer_stack@.last() + 1 && final(
                stack)@.drop_last() == old(stack)@.take(old(self).storer_stack@.last() as int)
                && final(stack)@.last()@ == push_all_rep(
                RepVal::Vector(Seq::<RepVal>::empty()),
                rep_seq(
                    old(stack)@.subrange(
                        old(self).storer_stack@.last() as int,
                        old(stack)@.len() as int,
                    ),
                ),
            ),
    {
        broadcast use crate::value::lemma_rep_seq;

        let mark = match self.storer_stack.pop() {
            Some(m) => m,
            None => {
                return Err(TinError::NoContext);
            },
        };
        if mark > stack.len() {
            return Err(TinError::CaptureUnderflow);
        }
        let ghost captured = old(stack)@.subrange(mark as int, old(stack)@.len() as int);
        proof {
            assert(stack@ =~= old(stack)@.subrange(0, stack@.len() as int));
        }
        let mut tail: Vec<TinValue> = Vec::new();
        while stack.len() > mark
            invariant
                mark <= stack@.len() <= old(stack)@.len(),
                stack@ == old(stack)@.subrange(0, stack@.len() as int),
                tail@.len() == old(stack)@.len() - stack@.len(),
                forall|j: int|
                    0 <= j < tail@.len() ==> tail@[j] == old(stack)@[old(stack)@.len() - 1 - j],
            decreases stack@.len(),
        {
            let ghost pre = stack@;
            match stack.pop() {
                Some(v) => tail.push(v),
                None => {
                    return Err(TinError::CaptureUnderflow);
                },
            }
            proof {
                assert(stack@ =~= old(stack)@.subrange(0, stack@.len() as int));
            }
        }
        let mut acum = TinVector::new();
        proof {
            assert forall|j: int|
                0 <= j < tail@.len() implies tail@[j] == captured[captured.len() - 1 - j] by {
                assert(captured[captured.len() - 1 - j] == old(stack)@[old(stack)@.len() - 1
                    - j]);
            }
            assert(rep_seq(captured.take(0)) =~= Seq::<RepVal>::empty());
            assert(captured.take(0) =~= Seq::<TinValue>::empty());
        }
        while tail.len() > 0
            invariant
                tail@.len() <= captured.len(),
                captured == old(stack)@.subrange(mark as int, old(stack)@.len() as int),
                mark <= old(stack)@.len(),
                forall|j: int|
                    0 <= j < tail@.len() ==> tail@[j] == captured[captured.len() - 1 - j],
                acum@ == push_all_rep(
                    RepVal::Vector(Seq::<RepVal>::empty()),
                    rep_seq(captured.take(captured.len() - tail@.len())),
                ),
            decreases tail@.len(),
        {
            let ghost k = captured.len() - tail@.len();
            let ghost pre_acc = acum@;
            match tail.pop() {
                Some(v) => {
                    proof {
                        assert(v == captured[k]);
                    }
                    acum.push(v);
                },
                None => {
                    return Err(TinError::CaptureUnderflow);
                },
            }
            proof {
                let a = captured.take(k);
                let b = captured.take(k + 1);
                crate::value::lemma_rep_seq(a);
                crate::value::lemma_rep_seq(b);
                assert(b =~= a.push(captured[k]));
                assert forall|j: int|
                    0 <= j < b.len() implies rep_seq(b)[j] == rep_seq(a).push(
                    rep_of(captured[k]),
                )[j] by {
                    assert(rep_seq(b)[j] == rep_of(b[j]));
                    if j < k {
                        assert(b[j] == a[j]);
                        assert(rep_seq(a)[j] == rep_of(a[j]));
                    } else {
                        assert(b[j] == captured[k]);
                    }
                }
                assert(rep_seq(b) =~= rep_seq(a).push(rep_of(captured[k])));
                crate::vector::lemma_push_all_snoc(
                    RepVal::Vector(Seq::<RepVal>::empty()),
                    rep_seq(a),
                    rep_of(captured[k]),
                );
            }
        }
        proof {
            assert(captured.take(captured.len() as int) =~= captured);
            assert(stack@ =~= old(stack)@.take(mark as int));
        }
        stack.push(acum.to_value());
        Ok(())
    }

    /// Map open: like foreach open, also recording the stack depth and a
    /// fresh accumulator.
    fn map_init(&mut self, stack: &mut Vec<TinValue>, ip: &mut i64) -> (r: Result<(), TinError>)
        ensures
            final(self).policy == old(self).policy,
            final(self).output@ == old(self).output@,
            *final(ip) == *old(ip),
            final(self).storer_stack@ == old(self).storer_stack@,
            final(self).loop_stack@ == old(self).loop_stack@,
            final(self).variables@ == old(self).variables@,
            !old(self).map_revisit(*old(ip)) ==> ((r is Ok <==> (old(stack)@.len() > 0
                && rep_is_vec(old(stack)@.last()@) && rep_len(old(stack)@.last()@) > 0)) && (r
                is Ok ==> final(self).map_stack@.len() == old(self).map_stack@.len() + 1 && final(
                self).map_stack@.drop_last() == old(self).map_stack@ && final(
                self).map_stack@.last().pos == *old(ip) && final(self).map_stack@.last().idx == 0
                && final(self).map_stack@.last().arr@ == old(stack)@.last()@ && final(
                self).map_stack@.last().depth == old(stack)@.len() - 1 && final(
                self).map_stack@.last().acc@ == RepVal::Vector(Seq::<RepVal>::empty()) && final(
                stack)@.len() == old(stack)@.len() && final(stack)@.drop_last() == old(
                stack)@.drop_last() && final(stack)@.last()@ == rep_elem(old(stack)@.last()@, 0))
                && (r is Err ==> r->Err_0 == (if old(stack)@.len() == 0 {
                TinError::EmptyStack
            } else if !rep_is_vec(old(stack)@.last()@) {
                TinError::NotAVector
            } else {
                TinError::EmptyVector
            })) && (r is Err && !(old(stack)@.len() > 0 && rep_is_vec(old(stack)@.last()@))
                ==> final(stack)@ == old(stack)@ && final(self).map_stack@ == old(
                self).map_stack@)),
            old(self).map_revisit(*old(ip)) ==> ((r is Ok <==> (old(self).map_stack@.last().idx
                < usize::MAX && old(self).map_stack@.last().idx + 1 < rep_len(
                old(self).map_stack@.last().arr@,
            ))) && (r is Ok ==> final(self).map_stack@.len() == old(self).map_stack@.len()
                && final(self).map_stack@.drop_last() == old(self).map_stack@.drop_last()
                && final(self).map_stack@.last().pos == old(self).map_stack@.last().pos && final(
                self).map_stack@.last().arr@ == old(self).map_stack@.last().arr@ && final(
                self).map_stack@.last().idx == old(self).map_stack@.last().idx + 1 && final(
                self).map_stack@.last().depth == old(self).map_stack@.last().depth && final(
                self).map_stack@.last().acc@ == old(self).map_stack@.last().acc@ && final(
                stack)@.len() == old(stack)@.len() + 1 && final(stack)@.drop_last() == old(
                stack)@ && final(stack)@.last()@ == rep_elem(
                old(self).map_stack@.last().arr@,
                old(self).map_stack@.last().idx + 1,
            )) && (r is Err ==> final(stack)@ == old(stack)@ && r->Err_0 == (if old(
                self).map_stack@.last().idx == usize::MAX {
                TinError::IndexOutOfRange
            } else {
                TinError::EmptyVector
            }))),
    {
        let len = self.map_stack.len();
        let revisit = len > 0 && self.map_stack[len - 1].pos == *ip;
        if revisit {
            let mut frame = match self.map_stack.pop() {
                Some(f) => f,
                None => {
                    return Err(TinError::NoContext);
                },
            };
            if frame.idx == usize::MAX {
                return Err(TinError::IndexOutOfRange);
            }
            frame.idx = frame.idx + 1;
            self.map_stack.push(frame);
        } else {
            let top = match stack.pop() {
                Some(v) => v,
                None => {
                    return Err(TinError::EmptyStack);
                },
            };
            let arr = match top {
                TinValue::Vector(v) => TinVector::Mixed(v),
                TinValue::IntVector(v) => TinVector::Int(v),
                TinValue::FloatVector(v) => TinVector::Float(v),
                other => {
                    stack.push(other);
                    return Err(TinError::NotAVector);
                },
            };
            self.map_stack.push(
                MapFrame { pos: *ip, arr, idx: 0, depth: stack.len(), acc: TinVector::new() },
            );
        }
        let len2 = self.map_stack.len();
        let frame = &self.map_stack[len2 - 1];
        let k = frame.arr.len();
        if frame.idx >= k {
            return Err(TinError::EmptyVector);
        }
        let e = frame.arr.get(frame.idx);
        stack.push(e);
        Ok(())
    }

    /// Map close: drains this iteration's pushes into the accumulator,
    /// rewinds while elements remain, and pushes the accumulated vector
    /// when exhausted.
    #[verifier::loop_isolation(false)]
    fn map_end(&mut self, stack: &mut Vec<TinValue>, ip: &mut i64) -> (r: Result<(), TinError>)
        ensures
            final(self).policy == old(self).policy,
            final(self).output@ == old(self).output@,
            r is Err ==> *final(ip) == *old(ip),
            final(self).storer_stack@ == old(self).storer_stack@,
            final(self).loop_stack@ == old(self).loop_stack@,
            final(self).variables@ == old(self).variables@,
            r is Err <==> (old(self).map_stack@.len() == 0 || old(self).map_stack@.last().depth
                > old(stack)@.len() || (rep_len(old(self).map_stack@.last().arr@) > 0 && old(
                self).map_stack@.last().idx < rep_len(old(self).map_stack@.last().arr@) - 1
                && old(self).map_stack@.last().pos == i64::MIN)),
            r is Err && (old(self).map_stack@.len() == 0 || old(self).map_stack@.last().depth
                > old(stack)@.len()) ==> final(stack)@ == old(stack)@ && final(self).map_stack@
                == old(self).map_stack@ && r->Err_0 == (if old(self).map_stack@.len() == 0 {
                TinError::NoContext
            } else {
                TinError::CaptureUnderflow
            }),
            r is Err && old(self).map_stack@.len() > 0 && old(self).map_stack@.last().depth
                <= old(stack)@.len() ==> r->Err_0 == TinError::NoContext && final(
                self).map_stack@ == old(self).map_stack@.drop_last() && final(stack)@ == old(
                stack)@.take(old(self).map_stack@.last().depth as int),
            r is Ok && rep_len(old(self).map_stack@.last().arr@) > 0 && old(
                self).map_stack@.last().idx < rep_len(old(self).map_stack@.last().arr@) - 1
                ==> *final(ip) == old(self).map_stack@.last().pos - 1 && final(
                self).map_stack@.len() == old(self).map_stack@.len() && final(
                self).map_stack@.drop_last() == old(self).map_stack@.drop_last() && final(
                self).map_stack@.last().pos == old(self).map_stack@.last().pos && final(
                self).map_stack@.last().arr@ == old(self).map_stack@.last().arr@ && final(
                self).map_stack@.last().idx == old(self).map_stack@.last().idx && final(
                self).map_stack@.last().depth == old(self).map_stack@.last().depth && final(
                self).map_stack@.last().acc@ == push_all_rep(
                old(self).map_stack@.last().acc@,
                rep_seq(
                    old(stack)@.subrange(
                        old(self).map_stack@.last().depth as int,
                        old(stack)@.len() as int,
                    ),
                ),
            ) && final(stack)@ == old(stack)@.take(old(self).map_stack@.last().depth as int),
            r is Ok && !(rep_len(old(self).map_stack@.last().arr@) > 0 && old(
                self).map_stack@.last().idx < rep_len(old(self).map_stack@.last().arr@) - 1)
                ==> *final(ip) == *old(ip) && final(self).map_stack@ == old(
                self).map_stack@.drop_last() && final(stack)@.len() == old(
                self).map_stack@.last().depth + 1 && final(stack)@.drop_last() == old(
                stack)@.take(old(self).map_stack@.last().depth as int) && final(stack)@.last()@
                == push_all_rep(
                old(self).map_stack@.last().acc@,
                rep_seq(
                    old(stack)@.subrange(
                        old(self).map_stack@.last().depth as int,
                        old(stack)@.len() as int,
                    ),
                ),
            ),
    {
        let mut frame = match self.map_stack.pop() {
            Some(f) => f,
            None => {
                return Err(TinError::NoContext);
            },
        };
        if frame.depth > stack.len() {
            self.map_stack.push(frame);
            proof {
                assert(self.map_stack@ =~= old(self).map_stack@);
            }
            return Err(TinError::CaptureUnderflow);
        }
        let ghost captured = old(stack)@.subrange(frame.depth as int, old(stack)@.len() as int);
        let ghost base = frame.acc@;
        proof {
            assert(stack@ =~= old(stack)@.subrange(0, stack@.len() as int));
        }
        let mut tail: Vec<TinValue> = Vec::new();
        while stack.len() > frame.depth
            invariant
                frame.depth <= stack@.len() <= old(stack)@.len(),
                stack@ == old(stack)@.subrange(0, stack@.len() as int),
                tail@.len() == old(stack)@.len() - stack@.len(),
                forall|j: int|
                    0 <= j < tail@.len() ==> tail@[j] == old(stack)@[old(stack)@.len() - 1 - j],
            decreases stack@.len(),
        {
            match stack.pop() {
                Some(v) => tail.push(v),
                None => {
                    return Err(TinError::CaptureUnderflow);
                },
            }
            proof {
                assert(stack@ =~= old(stack)@.subrange(0, stack@.len() as int));
            }
        }
        proof {
            assert forall|j: int|
                0 <= j < tail@.len() implies tail@[j] == captured[captured.len() - 1 - j] by {
                assert(captured[captured.len() - 1 - j] == old(stack)@[old(stack)@.len() - 1
                    - j]);
            }
            assert(captured.take(0) =~= Seq::<TinValue>::empty());
            assert(rep_seq(captured.take(0)) =~= Seq::<RepVal>::empty());
        }
        while tail.len() > 0
            invariant
                tail@.len() <= captured.len(),
                captured == old(stack)@.subrange(
                    frame.depth as int,
                    old(stack)@.len() as int,
                ),
                frame.depth <= old(stack)@.len(),
                frame.pos == old(self).map_stack@.last().pos,
                frame.arr@ == old(self).map_stack@.last().arr@,
                frame.idx == old(self).map_stack@.last().idx,
                frame.depth == old(self).map_stack@.last().depth,
                forall|j: int|
                    0 <= j < tail@.len() ==> tail@[j] == captured[captured.len() - 1 - j],
                frame.acc@ == push_all_rep(
                    base,
                    rep_seq(captured.take(captured.len() - tail@.len())),
                ),
            decreases tail@.len(),
        {
            let ghost k = captured.len() - tail@.len();
            match tail.pop() {
                Some(v) => {
                    proof {
                        assert(v == captured[k]);
                    }
                    frame.acc.push(v);
                },
                None => {
                    return Err(TinError::CaptureUnderflow);
                },
            }
            proof {
                let a = captured.take(k);
                let b = captured.take(k + 1);
                crate::value::lemma_rep_seq(a);
                crate::value::lemma_rep_seq(b);
                assert(b =~= a.push(captured[k]));
                assert forall|j: int|
                    0 <= j < b.len() implies rep_seq(b)[j] == rep_seq(a).push(
                    rep_of(captured[k]),
                )[j] by {
                    assert(rep_seq(b)[j] == rep_of(b[j]));
                    if j < k {
                        assert(b[j] == a[j]);
                        assert(rep_seq(a)[j] == rep_of(a[j]));
                    } else {
                        assert(b[j] == captured[k]);
                    }
                }
                assert(rep_seq(b) =~= rep_seq(a).push(rep_of(captured[k])));
                crate::vector::lemma_push_all_snoc(base, rep_seq(a), rep_of(captured[k]));
            }
        }
        proof {
            assert(captured.take(captured.len() as int) =~= captured);
            assert(stack@ =~= old(stack)@.take(frame.depth as int));
        }
        let k = frame.arr.len();
        let idx = frame.idx;
        if k > 0 && idx < k - 1 {
            if frame.pos == i64::MIN {
                proof {
                    assert(self.map_stack@ =~= old(self).map_stack@.drop_last());
                }
                return Err(TinError::NoContext);
            }
            *ip = frame.pos - 1;
            self.map_stack.push(frame);
            proof {
                assert(self.map_stack@.drop_last() =~= old(self).map_stack@.drop_last());
            }
        } else {
            stack.push(frame.acc.to_value());
        }
        Ok(())
    }

    /// Whether bulk operations may fan out.
    pub fn get_parallelization(&self) -> (r: bool)
        ensures
            r == self.policy.enabled,
    {
        self.policy.enabled
    }

    /// Toggles the bulk fan-out flag.
    pub fn set_parallelization(&mut self, value: bool)
        ensures
            final(self).policy.enabled == value,
            final(self).policy.cores == old(self).policy.cores,
    {
        self.policy.enabled = value;
    }

    /// The output buffer as text.
    pub fn output_text(&self) -> (r: String)
        ensures
            r@ == self.output@,
    {
        chars_to_string(&self.output)
    }
}

/// A sequence extended on the right keeps the old text as a prefix.
proof fn lemma_concat_prefix(a: Seq<char>, b: Seq<char>)
    requires
        b.len() >= a.len(),
        b.subrange(0, a.len() as int) == a,
    ensures
        a.is_prefix_of(b),
{
}

/// Renders an error as text: the failing instruction, its position and
/// the fault kind.
impl RunError {
    /// The error's display text: the instruction, a space, the decimal
    /// pointer position, a separating colon, and the fault kind's text.
    pub fn message(&self) -> (r: String)
        ensures
            r@ == self.instr@ + seq![' '] + crate::numtext::dec_i64(self.pos) + seq![':', ' ']
                + crate::errors::kind_text(self.kind),
    {
        let mut text: Vec<char> = Vec::new();
        let mut instr = clone_chars(&self.instr);
        text.append(&mut instr);
        text.push(' ');
        let mut p = fmt_i64(self.pos);
        text.append(&mut p);
        text.push(':');
        text.push(' ');
        let mut k = crate::numtext::str_to_chars(self.kind.describe());
        text.append(&mut k);
        proof {
            assert(text@ =~= self.instr@ + seq![' '] + crate::numtext::dec_i64(self.pos) + seq![
                ':',
                ' ',
            ] + crate::errors::kind_text(self.kind));
        }
        chars_to_string(&text)
    }
}

} // verus!
