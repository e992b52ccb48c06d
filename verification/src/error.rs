//! The errors of the library.

use vstd::prelude::*;
use crate::value::ArgType;

verus! {

/// The concrete type that an accessor was asked to extract from a value.
#[derive(Clone, Copy, Debug, PartialEq, Eq, Structural)]
pub enum Requested {
    String,
    UnsignedInteger,
    SignedInteger,
    Float,
    Vector,
}

/// Every way in which building a schema, parsing a token sequence or reading
/// a decoded value can fail. All of them are terminal.
#[derive(Clone, Debug, PartialEq, Eq)]
pub enum CmdError {
    /// The token sequence ended where more tokens were needed.
    WrongArity,
    /// The first token is not the command's name: expected name, then the token.
    NameMismatch(String, String),
    /// A token fits no required, optional or named slot.
    UnexpectedArgument(String),
    /// An argument without a default was never supplied.
    MissingRequired(String),
    /// A token that had to be a number of the given type is malformed.
    InvalidNumber(String, ArgType),
    /// A value holds another variant than the one asked for.
    TypeMismatch(Requested),
    /// An argument of that name is already declared in the schema.
    DuplicateName(String),
}

/// The mathematical content of a [`CmdError`].
pub ghost enum ErrorView {
    WrongArity,
    NameMismatch(Seq<char>, Seq<char>),
    UnexpectedArgument(Seq<char>),
    MissingRequired(Seq<char>),
    InvalidNumber(Seq<char>, ArgType),
    TypeMismatch(Requested),
    DuplicateName(Seq<char>),
}

impl View for CmdError {
    type V = ErrorView;

    open spec fn view(&self) -> ErrorView {
        match self {
            CmdError::WrongArity => ErrorView::WrongArity,
            CmdError::NameMismatch(expected, actual) => ErrorView::NameMismatch(expected@, actual@),
            CmdError::UnexpectedArgument(token) => ErrorView::UnexpectedArgument(token@),
            CmdError::MissingRequired(name) => ErrorView::MissingRequired(name@),
            CmdError::InvalidNumber(token, kind) => ErrorView::InvalidNumber(token@, *kind),
            CmdError::TypeMismatch(requested) => ErrorView::TypeMismatch(*requested),
            CmdError::DuplicateName(name) => ErrorView::DuplicateName(name@),
        }
    }
}

} // verus!
