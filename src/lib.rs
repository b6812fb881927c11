// A compiler and executor for the eight-symbol tape language: source text is
// lexed into symbols, parsed into a tree of instructions, optimized into
// coarser moves and cell adjustments, compiled into steps that carry their
// cursor displacement, and run on a bounded tape.
pub mod lexer;
pub mod parser;
pub mod optimizer;
pub mod semantics;
pub mod equivalence;
pub mod codegen;
pub mod executor;
pub mod pipeline;
