use vstd::prelude::*;
use crate::token::{Span, Token};

verus! {

/// The category of token that a grammar slot asked for.
#[derive(Clone, Copy, Debug, PartialEq, Eq, Structural)]
pub enum Expected {
    Str,
    As,
    Ident,
    Number,
    Int,
    StrOrIdent,
    IdentOrRow,
    Seconds,
    NewlineOrEof,
}

/// The words a diagnostic uses for a category.
pub open spec fn label_text(e: Expected) -> Seq<char> {
    match e {
        Expected::Str => "string"@,
        Expected::As => "as"@,
        Expected::Ident => "ident"@,
        Expected::Number => "number"@,
        Expected::Int => "int"@,
        Expected::StrOrIdent => "string or ident"@,
        Expected::IdentOrRow => "ident or row"@,
        Expected::Seconds => "seconds"@,
        Expected::NewlineOrEof => "newline or end of file"@,
    }
}

impl Expected {
    /// The words a diagnostic uses for this category.
    pub fn label(&self) -> (r: &'static str)
        ensures
            r@ == label_text(*self),
    {
        match self {
            Expected::Str => "string",
            Expected::As => "as",
            Expected::Ident => "ident",
            Expected::Number => "number",
            Expected::Int => "int",
            Expected::StrOrIdent => "string or ident",
            Expected::IdentOrRow => "ident or row",
            Expected::Seconds => "seconds",
            Expected::NewlineOrEof => "newline or end of file",
        }
    }
}

/// What the lexer could not read.
#[derive(Clone, Copy, Debug, PartialEq, Eq, Structural)]
pub enum LexProblem {
    /// A `"` with no closing `"` after it.
    UnterminatedString,
    /// An integer literal whose magnitude does not fit in 64 unsigned bits.
    IntegerOutOfRange,
}

/// Why a script could not be read.
#[derive(Debug, PartialEq, Eq)]
pub enum Error {
    Lex { problem: LexProblem, span: Span },
    /// A token other than a line terminator followed an instruction.
    UnexpectedToken { expected: Expected, token: Token },
    /// An operand did not fit its grammar slot.
    InvalidArgument { expected: Expected, token: Token },
    /// A line did not start with an instruction keyword.
    InvalidInstruction { token: Token },
}

} // verus!
