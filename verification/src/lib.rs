//! Adamantium: lexer, parser, type checker, code generator, diagnostics and
//! project rules of the Adamantium compiler, and the decisions of the runtime
//! library that compiled programs call, with their contracts proved by Verus.

pub mod ieee;
pub mod text;
pub mod types;
pub mod syntax;
pub mod typed;
pub mod diagnostics;
pub mod project;
pub mod manifest;
pub mod codegen;
pub mod runtime;
pub mod loader;
pub mod toolchain;
