//! A declarative schema for the arguments of a command, and a parser that
//! decodes a flat sequence of tokens into named, typed values against it.

pub mod error;
pub mod laws;
pub mod outcome;
pub mod parse;
pub mod schema;
pub mod token;
pub mod value;

pub use error::{CmdError, Requested};
pub use outcome::ParseResult;
pub use schema::{Arg, Category, Command};
pub use token::Token;
pub use value::{ArgType, Value};
