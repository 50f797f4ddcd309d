//! A source-level stack-trace annotator for a stack-machine assembly
//! dialect (single-byte opcodes, symbolic macros, hexadecimal literals).
//!
//! The pipeline segments a lexed token stream into source-line groups,
//! assembles each group into a growing bytecode buffer (encoding push
//! literals with variable width), and merges the operand-stack snapshot
//! observed after each line back into a mutable copy of the source text.
//! Lexing, macro resolution and the stack machine itself are external
//! collaborators: the caller hands tokens in and stack snapshots back.

pub mod annotate;
pub mod encoder;
pub mod interp;
pub mod segment;
pub mod token;
