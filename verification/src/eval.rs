//! Reading a command line straight from the two parts of a gap buffer,
//! without joining them first.

pub mod bytes;
pub mod lex;
pub mod tokens;
