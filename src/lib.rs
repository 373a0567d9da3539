//! Parser combinators over character sequences, with a self-referential
//! combinator that lets a grammar mention itself while it is being built.

pub mod value;
pub mod parser;
pub mod arith;
pub mod laws;
pub mod direct;
