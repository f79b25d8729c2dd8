//! A compiler and interpreter for a minimal bracket-structured,
//! tape-manipulating language.
//!
//! Source text is parsed into a tree of [`symbol::Symbol`] instructions,
//! a peephole pass rewrites single-`Add` loops into `Zero`, and the tree is
//! either interpreted against an in-memory tape or translated into x86-64
//! machine code bytes that drive the tape through direct system calls.
//! The surrounding binary owns everything this library cannot: reading the
//! source file and placing the generated bytes into executable memory.

pub mod encode;
pub mod jit;
pub mod machine;
pub mod symbol;
