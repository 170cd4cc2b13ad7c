//! The failures that the library reports.

use vstd::prelude::*;
use crate::ident::{Identifier, ProgramID};

verus! {

/// The class of a failure.
#[derive(Clone, Copy, Debug, PartialEq, Eq, Structural)]
pub enum ErrorKind {
    /// An arity mismatch, an unknown function or tag, text or bytes that do
    /// not parse.
    MalformedInput,
    /// The request contradicts what is already registered or stored.
    StateConflict,
    /// The inputs of an inclusion statement cannot be proved.
    ProofInputError,
    /// The circuit environment was not clean on entry.
    CircuitPrecondition,
    /// A certificate, key or signature did not pass.
    CryptoVerificationFailure,
}

/// A failure, with the program, function, mapping or position it is about.
#[derive(Clone, Copy, Debug, PartialEq, Eq, Structural)]
pub enum Error {
    /// The program declares no function.
    NoFunctions { program: ProgramID },
    /// The program has no function of this name.
    UnknownFunction { program: ProgramID, function: Identifier },
    /// A call supplies another number of inputs than the function declares.
    InputCountMismatch { program: ProgramID, function: Identifier, expected: usize, found: usize },
    /// The number of input IDs differs from the number of transition inputs.
    InputIdCountMismatch { expected: usize, found: usize },
    /// A byte that should name a variant names none.
    InvalidVariant { tag: u8 },
    /// The bytes end before the value does.
    UnexpectedEnd,
    /// The text does not start with a command.
    InvalidText,
    /// The text is no identifier.
    InvalidIdentifier,
    /// The text holds a value followed by something else, from byte `at` on.
    TrailingText { at: usize },
    /// The program cannot be compiled into a stack.
    MalformedProgram { program: ProgramID },
    /// A deployment holds another number of keys than the program has
    /// functions, or names them otherwise.
    KeyMismatch { program: ProgramID },
    /// A program of this ID is registered already.
    ProgramExists { program: ProgramID },
    /// A function has a verifying key already.
    KeyExists { program: ProgramID, function: Identifier },
    /// A mapping holds no value under the key that was read.
    KeyNotFound { program: ProgramID, mapping: Identifier },
    /// A register was read before it was written.
    RegisterNotFound { locator: u64 },
    /// The operands of an instruction do not have one unsigned type, or the
    /// result does not fit it.
    InvalidOperation,
    /// The store has no such mapping.
    MappingNotFound { program: ProgramID, mapping: Identifier },
    /// No record is consumed and the global state root is zero.
    ZeroGlobalStateRoot,
    /// More transitions than the transaction tree has leaves for.
    TooManyTransitions { found: usize },
    /// More leaves than a tree of the depth at hand has room for.
    TooManyLeaves { found: usize },
    /// The parts do not make a valid block header.
    InvalidHeader,
    /// The circuit environment holds the remains of an earlier use.
    CircuitNotClean,
    /// A certificate does not match its verifying key.
    InvalidCertificate { program: ProgramID, function: Identifier },
    /// No key or certificate could be made for a function.
    SynthesisFailed { program: ProgramID, function: Identifier },
    /// The request could not be signed.
    SigningFailed { program: ProgramID, function: Identifier },
    /// The function did not run to its end.
    ExecutionFailed { program: ProgramID, function: Identifier },
}

impl Error {
    /// The class of this failure.
    pub open spec fn spec_kind(self) -> ErrorKind {
        match self {
            Error::NoFunctions { .. } => ErrorKind::MalformedInput,
            Error::UnknownFunction { .. } => ErrorKind::MalformedInput,
            Error::InputCountMismatch { .. } => ErrorKind::MalformedInput,
            Error::InputIdCountMismatch { .. } => ErrorKind::MalformedInput,
            Error::InvalidVariant { .. } => ErrorKind::MalformedInput,
            Error::UnexpectedEnd => ErrorKind::MalformedInput,
            Error::InvalidText => ErrorKind::MalformedInput,
            Error::InvalidIdentifier => ErrorKind::MalformedInput,
            Error::TrailingText { .. } => ErrorKind::MalformedInput,
            Error::MalformedProgram { .. } => ErrorKind::MalformedInput,
            Error::KeyMismatch { .. } => ErrorKind::MalformedInput,
            Error::ProgramExists { .. } => ErrorKind::StateConflict,
            Error::KeyExists { .. } => ErrorKind::StateConflict,
            Error::KeyNotFound { .. } => ErrorKind::StateConflict,
            Error::RegisterNotFound { .. } => ErrorKind::MalformedInput,
            Error::InvalidOperation => ErrorKind::MalformedInput,
            Error::MappingNotFound { .. } => ErrorKind::StateConflict,
            Error::ZeroGlobalStateRoot => ErrorKind::ProofInputError,
            Error::TooManyTransitions { .. } => ErrorKind::ProofInputError,
            Error::TooManyLeaves { .. } => ErrorKind::ProofInputError,
            Error::InvalidHeader => ErrorKind::MalformedInput,
            Error::CircuitNotClean => ErrorKind::CircuitPrecondition,
            Error::InvalidCertificate { .. } => ErrorKind::CryptoVerificationFailure,
            Error::SynthesisFailed { .. } => ErrorKind::CryptoVerificationFailure,
            Error::SigningFailed { .. } => ErrorKind::CryptoVerificationFailure,
            Error::ExecutionFailed { .. } => ErrorKind::MalformedInput,
        }
    }

    /// The class of this failure.
    pub fn kind(&self) -> (r: ErrorKind)
        ensures
            r == self.spec_kind(),
    {
        match self {
            Error::NoFunctions { .. } => ErrorKind::MalformedInput,
            Error::UnknownFunction { .. } => ErrorKind::MalformedInput,
            Error::InputCountMismatch { .. } => ErrorKind::MalformedInput,
            Error::InputIdCountMismatch { .. } => ErrorKind::MalformedInput,
            Error::InvalidVariant { .. } => ErrorKind::MalformedInput,
            Error::UnexpectedEnd => ErrorKind::MalformedInput,
            Error::InvalidText => ErrorKind::MalformedInput,
            Error::InvalidIdentifier => ErrorKind::MalformedInput,
            Error::TrailingText { .. } => ErrorKind::MalformedInput,
            Error::MalformedProgram { .. } => ErrorKind::MalformedInput,
            Error::KeyMismatch { .. } => ErrorKind::MalformedInput,
            Error::ProgramExists { .. } => ErrorKind::StateConflict,
            Error::KeyExists { .. } => ErrorKind::StateConflict,
            Error::KeyNotFound { .. } => ErrorKind::StateConflict,
            Error::RegisterNotFound { .. } => ErrorKind::MalformedInput,
            Error::InvalidOperation => ErrorKind::MalformedInput,
            Error::MappingNotFound { .. } => ErrorKind::StateConflict,
            Error::ZeroGlobalStateRoot => ErrorKind::ProofInputError,
            Error::TooManyTransitions { .. } => ErrorKind::ProofInputError,
            Error::TooManyLeaves { .. } => ErrorKind::ProofInputError,
            Error::InvalidHeader => ErrorKind::MalformedInput,
            Error::CircuitNotClean => ErrorKind::CircuitPrecondition,
            Error::InvalidCertificate { .. } => ErrorKind::CryptoVerificationFailure,
            Error::SynthesisFailed { .. } => ErrorKind::CryptoVerificationFailure,
            Error::SigningFailed { .. } => ErrorKind::CryptoVerificationFailure,
            Error::ExecutionFailed { .. } => ErrorKind::MalformedInput,
        }
    }
}

} // verus!
