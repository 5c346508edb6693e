//! The runtime error kinds an instruction can signal. The engine wraps
//! them with the failing instruction's text and position.
use vstd::prelude::*;

verus! {

/// Why an instruction failed.
#[derive(Debug, Clone, Copy, PartialEq, Eq, Structural)]
pub enum TinError {
    /// A pop or peek found the stack empty.
    EmptyStack,
    /// The popped value was not a vector.
    NotAVector,
    /// The popped value was not an integer.
    NotAnInt,
    /// The popped value was not an integer or a float.
    NotAnIntOrFloat,
    /// The popped values were not an integer and a vector.
    NotIntAndVector,
    /// The popped values were not two vectors.
    NotTwoVectors,
    /// An index fell outside the vector it addresses.
    IndexOutOfRange,
    /// An integer division or remainder by zero.
    DivisionByZero,
    /// An integer operation overflowed where wrapping is not defined.
    Overflow,
    /// A read of a name with no live binding.
    UnboundVariable,
    /// A window size below one.
    BadWindowSize,
    /// A code point with no character, or a float where a character was
    /// needed.
    NotAChar,
    /// An aggregate of an empty vector.
    EmptyVector,
    /// A capture or map close found the stack below its opening mark.
    CaptureUnderflow,
    /// The call-depth budget ran out.
    OutOfFuel,
    /// A loop or map close with no open context.
    NoContext,
}

/// The fixed display text of each fault kind.
pub open spec fn kind_text(e: TinError) -> Seq<char> {
    match e {
        TinError::EmptyStack => "unable to pop from empty stack"@,
        TinError::NotAVector => "popped element was not a vector"@,
        TinError::NotAnInt => "popped element was not an int"@,
        TinError::NotAnIntOrFloat => "popped element was not an int or a float"@,
        TinError::NotIntAndVector => "popped elements were not an int and a vector"@,
        TinError::NotTwoVectors => "popped elements were not two vectors"@,
        TinError::IndexOutOfRange => "index out of range"@,
        TinError::DivisionByZero => "division by zero"@,
        TinError::Overflow => "integer overflow"@,
        TinError::UnboundVariable => "variable is not defined"@,
        TinError::BadWindowSize => "window size below one"@,
        TinError::NotAChar => "unable to convert to a character"@,
        TinError::EmptyVector => "aggregate of an empty vector"@,
        TinError::CaptureUnderflow => "stack fell below an open capture"@,
        TinError::OutOfFuel => "execution budget exhausted"@,
        TinError::NoContext => "close with no open context"@,
    }
}

impl TinError {
    /// A short fixed text naming the fault.
    pub fn describe(&self) -> (r: &'static str)
        ensures
            r@ == kind_text(*self),
    {
        match self {
            TinError::EmptyStack => "unable to pop from empty stack",
            TinError::NotAVector => "popped element was not a vector",
            TinError::NotAnInt => "popped element was not an int",
            TinError::NotAnIntOrFloat => "popped element was not an int or a float",
            TinError::NotIntAndVector => "popped elements were not an int and a vector",
            TinError::NotTwoVectors => "popped elements were not two vectors",
            TinError::IndexOutOfRange => "index out of range",
            TinError::DivisionByZero => "division by zero",
            TinError::Overflow => "integer overflow",
            TinError::UnboundVariable => "variable is not defined",
            TinError::BadWindowSize => "window size below one",
            TinError::NotAChar => "unable to convert to a character",
            TinError::EmptyVector => "aggregate of an empty vector",
            TinError::CaptureUnderflow => "stack fell below an open capture",
            TinError::OutOfFuel => "execution budget exhausted",
            TinError::NoContext => "close with no open context",
        }
    }
}

} // verus!
