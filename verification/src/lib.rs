//! The execution core of a small stack-based, array-oriented language:
//! a tokenizer that turns source text into an instruction sequence under
//! a self-extending grammar, and a stack-machine interpreter that runs
//! that sequence against a polymorphic, shape-promoting value model,
//! with a data-parallel fast path for bulk vector work.
use vstd::prelude::*;

pub mod apply;
pub mod arith;
pub mod display;
pub mod errors;
pub mod fbits;
pub mod interpreter;
pub mod laws;
pub mod lexer;
pub mod numtext;
pub mod ops_agg;
pub mod ops_array;
pub mod ops_index;
pub mod ops_misc;
pub mod ops_sort;
pub mod ops_stack;
pub mod order;
pub mod parallelism;
pub mod program;
pub mod simd;
pub mod sorts;
pub mod value;
pub mod vector;

use crate::interpreter::TinInterpreter;
use crate::numtext::chars_to_string;
use crate::value::TinValue;

verus! {

/// Runs a whole source text in a fresh interpreter and returns what it
/// wrote to the output buffer, or the text of the first fault: empty
/// source parses to an empty program, runs without effect, and so
/// yields an empty result.
pub fn execute_tin(code: &str) -> (r: String)
    ensures
        code@.len() == 0 ==> r@ == Seq::<char>::empty(),
{
    let mut interpreter = TinInterpreter::new();
    proof {
        reveal_with_fuel(crate::interpreter::cache_find_from, 2);
    }
    match interpreter.parse(code) {
        Ok(tokens) => {
            let mut stack: Vec<TinValue> = Vec::new();
            match interpreter.execute(&tokens, None, &mut stack) {
                Ok(_) => {
                    let out = interpreter.output_text();
                    proof {
                        if code@.len() == 0 {
                            assert(out@ =~= Seq::<char>::empty());
                        }
                    }
                    out
                },
                Err(e) => e.message(),
            }
        },
        Err(e) => chars_to_string(&e.rest),
    }
}

} // verus!
