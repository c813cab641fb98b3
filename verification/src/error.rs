//! Error types shared by the compiler and the runtime.

use vstd::prelude::*;

verus! {

/// The two error phases of the library: compile-time syntax errors and
/// per-cycle runtime errors. Message strings carry human-readable detail;
/// contracts speak of an error's [`kind`](err_kind) instead.
#[allow(non_camel_case_types)]
#[derive(Debug)]
pub enum SML_Error {
    /// A store value had a shape the language cannot represent.
    JsonFormatError(String),
    /// An operator was applied to operands of the wrong kind, or an
    /// assignment target was not an identifier.
    BadOperation(String),
    /// A transition named a state that does not exist.
    NonexistantState(String),
    /// An identifier path does not refer to an existing value.
    IdentifierNameError(String),
    /// An identifier path collides with a non-object value.
    IdentifierError(String),
    /// The input store is immutable and cannot be written to.
    InputsWriteError,
    /// Malformed source text.
    SyntaxError(String),
    /// An internal invariant of the compiler was violated.
    CompilerError(String),
}

#[allow(non_camel_case_types)]
pub type SML_Result<T> = Result<T, SML_Error>;

/// The mathematical model of an error: its kind, and the payload that is
/// semantically meaningful (the state name for a dangling transition, the
/// identifier for a bad path).
pub enum ErrK {
    JsonFormat,
    BadOperation,
    NonexistantState(Seq<char>),
    IdentifierName(Seq<char>),
    Identifier,
    InputsWrite,
    Syntax,
    Compiler,
}

/// Maps an executable error to its model.
pub open spec fn err_kind(e: SML_Error) -> ErrK {
    match e {
        SML_Error::JsonFormatError(_) => ErrK::JsonFormat,
        SML_Error::BadOperation(_) => ErrK::BadOperation,
        SML_Error::NonexistantState(s) => ErrK::NonexistantState(s@),
        SML_Error::IdentifierNameError(s) => ErrK::IdentifierName(s@),
        SML_Error::IdentifierError(_) => ErrK::Identifier,
        SML_Error::InputsWriteError => ErrK::InputsWrite,
        SML_Error::SyntaxError(_) => ErrK::Syntax,
        SML_Error::CompilerError(_) => ErrK::Compiler,
    }
}

} // verus!
