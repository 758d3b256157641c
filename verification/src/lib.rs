//! A tiny scripting dialect: scripts are sequences of `name(arg ...);`
//! statements, where the builtin `if(cond)` gates the following statement and
//! the builtin `exit(code)` ends the run with a status code.
//!
//! The pipeline runs strictly one way: bytes are decoded to Unicode scalar
//! values (`decoder`), scalars are tokenized (`lexer`), and the token stream
//! drives an interpreting state machine that dispatches registered functions
//! with parameter substitution (`interpreter`).

pub mod decoder;
pub mod interpreter;
pub mod lexer;
pub mod text;
