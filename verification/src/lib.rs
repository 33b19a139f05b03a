//! A compiler and reference interpreter for a minimal tape-machine
//! language of eight single-character instructions. The source text is
//! tokenized and parsed into an instruction tree; the code generation
//! engine lowers the tree — folding runs of equal instructions and building
//! one START/BODY/END block triple per loop — into a module of basic
//! blocks that a backend turns into native code, and whose semantics the
//! crate both states and executes directly.

/// The instruction tree and its rendering back to source text.
pub mod ast;
/// The code generation engine: basic blocks, run folding, loop lowering.
pub mod compiler;
/// The abstract machine: interpretation and compiled-code semantics.
pub mod semantics;
/// What the engine guarantees: folding transparency, block structure, the
/// tape lifecycle, and loop-free equivalence of the two semantics.
pub mod laws;
/// The single-instruction operators of the reference interpreter.
pub mod operators;
/// The reference interpreter.
pub mod runner;
/// A direct executor for generated modules.
pub mod machine;
/// The tokenizer.
pub mod lexer;
/// The recursive-descent parser.
pub mod parser;
