//! Reading a command line that lies in one piece: cursor, lexer, lookahead
//! and parser.

pub mod ast;
pub mod bp;
pub mod buffered;
pub mod bytes;
pub mod lex;
pub mod parse;
pub mod tokens;
