//! The C source the compiler reads.
pub mod ast;
pub mod ast_equiv;
