//! Compiles a parsed UI-template tree into the JS source of a reactive
//! runtime's render function. A pass-based walker tracks the lexical
//! scope that template constructs introduce and rewrites embedded JS
//! expressions against each identifier's binding origin; a code
//! generator then emits the creation-call protocol — block tracking,
//! patch flags, directive wrapping and variadic argument elision — for
//! the optimized tree. Every emitted text and every rewrite is pinned
//! by a specification alongside the code.

pub mod codegen;
pub mod flags;
pub mod ir;
pub mod process_expression;
pub mod rslint;
pub mod transformer;
pub mod util;
