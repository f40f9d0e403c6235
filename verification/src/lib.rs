//! Grammar layer of a small language front end: a classified token sequence
//! is turned into the top-level declarations (`struct` and `func` items) it
//! spells, or into the first error met.
//!
//! - [`token`]: the tokens that the grammar consumes.
//! - [`ast`]: the tree that it builds.
//! - [`error`]: how a parse fails.
//! - [`literal`]: the literal rule and the reading of integer texts.
//! - [`grammar`]: the rules for fields, arguments, generics, items and
//!   programs, each as a mathematical function and as the code that
//!   computes it.
//! - [`writing`]: how items are written as tokens, and the proof that what
//!   is written is read back.
//! - [`exact`]: the proof that nothing else is read.

pub mod ast;
pub mod error;
pub mod exact;
pub mod grammar;
pub mod literal;
pub mod token;
pub mod writing;
