//! Front end of the Gneiss toolchain: a resilient AST builder over a concrete
//! syntax tree, position encodings over a rope text buffer, syntax
//! diagnostics, and the incremental edit pipeline of an open document.

pub mod ast;
pub mod cst;
pub mod diagnostics;
pub mod document;
pub mod literal;
pub mod text;
pub mod typ;
