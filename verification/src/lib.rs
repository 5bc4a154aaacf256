//! The editing and evaluation core of an interactive command shell.

pub mod decimal;
pub mod eval;
pub mod lexeme;
pub mod read;
pub mod runtime;
pub mod text_box;
pub mod utf8;
