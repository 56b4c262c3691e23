//! A bytecode compiler and stack-machine core for a small, dynamically
//! typed expression language with lazily bound definitions.
//!
//! The library resolves lexical scopes and translates an abstract syntax
//! tree into a flat instruction sequence ([`cmd::Cmd`]) for a minimal
//! stack machine that uses only a value stack, relative jumps and
//! explicit address values for its call convention.  Every definition a
//! block or struct introduces compiles to a label addressed by a
//! globally unique bind id, so referencing a name jumps to its label
//! instead of inlining it: definitions have call-by-need semantics and
//! may refer to each other forward.  Each emitting function's contract
//! states that it produces exactly the mathematical translation of its
//! node, so the emitter is deterministic by construction.
//!
//! The [`vm`] module executes that instruction stream one proved step at
//! a time: constants, arithmetic, comparisons and relative jumps, and the
//! full call convention — forcing binds, closures, structs, lists and
//! property access — built from explicit return records on the operand
//! stack rather than a native call stack.  Calling a host callable pauses
//! the machine until the host hands the result back, which is how module
//! import is bridged.

pub mod ast;
pub mod cmd;
pub mod emit;
pub mod scope;
pub mod text;
pub mod vm;

pub use cmd::Cmd;
pub use emit::get_cmd;
pub use emit::CompileError;
pub use scope::Identifier;
