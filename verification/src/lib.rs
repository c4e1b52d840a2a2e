//! A small ahead-of-time compiler. A program is a list of named
//! declarations, each an integer or the name of another declaration, with an
//! optional module clause that selects the declarations to export. It is
//! compiled to a WebAssembly binary module with one function for each
//! declaration.
//!
//! The stages, in the order in which a text passes through them:
//!
//! - [`grammar`]: the grammar and the parser, from a text to a parse tree;
//! - [`parser`]: the parse tree and its adapter, from nodes to identifiers
//!   and integers;
//! - [`ast`]: the syntax tree, how it is built from the parse tree, its
//!   validation and the type check of its declarations;
//! - [`types`]: the types, typing environments and the matching of a term
//!   against a type;
//! - [`wasm`]: the module that a tree is lowered to, and its encoding;
//! - [`compiler`]: all of them in a row.

pub mod ast;
pub mod compiler;
pub mod grammar;
pub mod names;
pub mod parser;
pub mod types;
pub mod wasm;
