//! The fatal error conditions of the interpreter.
//!
//! Every language-level fault aborts the run and is reported through one of
//! these variants; only a canvas draw failure is non-fatal (see `exec`).

use vstd::prelude::*;

verus! {

/// A fatal interpreter error: parsing or execution stops as soon as one arises.
#[derive(Debug, Clone, PartialEq)]
pub enum LogoError {
    /// An expression token is neither a quoted literal, a variable reference
    /// nor a state query.
    InvalidValue { token: String },
    /// A fixed-arity command received the wrong number of argument tokens.
    ArityMismatch { command: String, received: usize, expected: usize },
    /// An `IF` or `WHILE` header did not reduce to one condition followed by `[`.
    IncorrectBlockCondition { command: String },
    /// An `IF` or `WHILE` header does not end with the token `[`.
    MissingStartingBrace,
    /// A `TO` header names the procedure with a token that already reads as a value.
    InvalidProcedureName { name: String },
    /// A `TO` line carries no procedure name at all.
    MissingProcedureName,
    /// A `]` line appeared with no open bracketed block.
    UnmatchedBracket,
    /// An `END` line appeared with no open procedure definition.
    UnmatchedEnd,
    /// The script ended while a bracketed block was still open.
    UnclosedBrace,
    /// The script ended while a procedure definition was still open.
    UnclosedProcedure,
    /// A variable was referenced or re-assigned before being defined.
    VariableNotFound { name: String },
    /// A textual value could not be read as the type a command requires.
    UnparsableValue { token: String },
    /// `ADDASSIGN` found the variable holding text that is not an integer.
    NonIntegerVariable { name: String },
    /// `SETPENCOLOR` received an index outside the palette.
    ColorOutOfRange { index: i32, bound: usize },
    /// An arithmetic operator was asked to divide by zero.
    DivisionByZero,
    /// An arithmetic result fell outside the machine integer range.
    ArithmeticOverflow,
    /// A move would take the turtle beyond the coordinate range the canvas accepts.
    PositionOutOfRange,
    /// A call named a procedure that was never defined.
    ProcedureNotFound { name: String },
    /// A call passed a different number of arguments than the procedure declares.
    ProcedureArityMismatch { name: String, received: usize, expected: usize },
}

/// The mathematical shape of a `LogoError`, with text as character sequences.
pub enum ErrV {
    InvalidValue { token: Seq<char> },
    ArityMismatch { command: Seq<char>, received: nat, expected: nat },
    IncorrectBlockCondition { command: Seq<char> },
    MissingStartingBrace,
    InvalidProcedureName { name: Seq<char> },
    MissingProcedureName,
    UnmatchedBracket,
    UnmatchedEnd,
    UnclosedBrace,
    UnclosedProcedure,
    VariableNotFound { name: Seq<char> },
    UnparsableValue { token: Seq<char> },
    NonIntegerVariable { name: Seq<char> },
    ColorOutOfRange { index: int, bound: nat },
    DivisionByZero,
    ArithmeticOverflow,
    PositionOutOfRange,
    ProcedureNotFound { name: Seq<char> },
    ProcedureArityMismatch { name: Seq<char>, received: nat, expected: nat },
}

impl View for LogoError {
    type V = ErrV;

    open spec fn view(&self) -> ErrV {
        match self {
            LogoError::InvalidValue { token } => ErrV::InvalidValue { token: token@ },
            LogoError::ArityMismatch { command, received, expected } => ErrV::ArityMismatch {
                command: command@,
                received: *received as nat,
                expected: *expected as nat,
            },
            LogoError::IncorrectBlockCondition { command } => ErrV::IncorrectBlockCondition {
                command: command@,
            },
            LogoError::MissingStartingBrace => ErrV::MissingStartingBrace,
            LogoError::InvalidProcedureName { name } => ErrV::InvalidProcedureName { name: name@ },
            LogoError::MissingProcedureName => ErrV::MissingProcedureName,
            LogoError::UnmatchedBracket => ErrV::UnmatchedBracket,
            LogoError::UnmatchedEnd => ErrV::UnmatchedEnd,
            LogoError::UnclosedBrace => ErrV::UnclosedBrace,
            LogoError::UnclosedProcedure => ErrV::UnclosedProcedure,
            LogoError::VariableNotFound { name } => ErrV::VariableNotFound { name: name@ },
            LogoError::UnparsableValue { token } => ErrV::UnparsableValue { token: token@ },
            LogoError::NonIntegerVariable { name } => ErrV::NonIntegerVariable { name: name@ },
            LogoError::ColorOutOfRange { index, bound } => ErrV::ColorOutOfRange {
                index: *index as int,
                bound: *bound as nat,
            },
            LogoError::DivisionByZero => ErrV::DivisionByZero,
            LogoError::ArithmeticOverflow => ErrV::ArithmeticOverflow,
            LogoError::PositionOutOfRange => ErrV::PositionOutOfRange,
            LogoError::ProcedureNotFound { name } => ErrV::ProcedureNotFound { name: name@ },
            LogoError::ProcedureArityMismatch { name, received, expected } => {
                ErrV::ProcedureArityMismatch {
                    name: name@,
                    received: *received as nat,
                    expected: *expected as nat,
                }
            },
        }
    }
}

} // verus!
