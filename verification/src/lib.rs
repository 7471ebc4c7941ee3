//! A minimal language pipeline, verified end to end: a character-level
//! lexer, a single-pass recursive-descent compiler that emits register-based
//! bytecode directly (no syntax tree), and a stack-machine interpreter that
//! executes the bytecode against a global name table. Each stage's
//! executable code is proved equal to a mathematical description of the
//! stage, and the bytecode the compiler emits is proved safe for the
//! interpreter's stack discipline.

use vstd::prelude::*;

pub mod lexer;
pub mod parser;
pub mod tokenizer;
pub mod value;
pub mod vm;

verus! {

/// A fatal lexical fault: an unrecognized byte, an unterminated string
/// literal, or a numeric literal outside the supported integer grammar.
#[derive(Debug, Clone, Copy, PartialEq, Eq, Structural)]
pub enum LexFault {
    /// A byte that begins no token.
    UnexpectedByte,
    /// End of input was reached before the closing quote of a string.
    UnterminatedString,
    /// A numeric literal using an unsupported form (hexadecimal prefix,
    /// fraction, or exponent).
    UnsupportedNumericForm,
    /// A decimal literal too large for a 64-bit signed integer.
    NumberOverflow,
}

/// A fatal syntax fault: a token at a decision point does not match any
/// expected shape.
#[derive(Debug, Clone, Copy, PartialEq, Eq, Structural)]
pub enum SyntaxFault {
    /// A name was required (after `local`).
    ExpectedName,
    /// An `=` was required (after `local <name>`).
    ExpectedAssign,
    /// A `(` was required (after the callee of a call statement).
    ExpectedParenLeft,
    /// A `)` was required (after a call's single argument).
    ExpectedParenRight,
    /// A token that cannot begin an expression.
    InvalidExpression,
    /// A right-hand side of a global assignment that is neither a literal
    /// nor a name.
    InvalidAssignRhs,
    /// A register or constant-pool operand would not fit in a byte.
    OperandOverflow,
}

/// A fatal runtime fault. Apart from `InvalidFunction`, these indicate a
/// defective program and are unreachable from compiler output.
#[derive(Debug, Clone, Copy, PartialEq, Eq, Structural)]
pub enum RuntimeFault {
    /// A call instruction found a non-function value in its function slot.
    InvalidFunction,
    /// A global-table key constant that is not a string.
    InvalidGlobalKey,
    /// A constant-pool index outside the pool.
    ConstantOutOfRange,
    /// A read of a stack slot outside the current stack.
    StackOutOfRange,
    /// A write to a stack slot beyond the next free slot.
    StackGap,
}

/// The single error type of the pipeline: one lexical, syntax, or runtime
/// fault aborts the whole run.
#[derive(Debug, Clone, Copy, PartialEq, Eq, Structural)]
pub enum LuaError {
    Lexical(LexFault),
    Syntax(SyntaxFault),
    Runtime(RuntimeFault),
}

} // verus!
