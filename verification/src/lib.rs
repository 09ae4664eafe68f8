//! Front end and mid end of a compiler for a small imperative scripting
//! language.
//!
//! The front end turns the syntax tree handed over by the grammar engine into
//! a typed abstract syntax tree ([`parser`]); the mid end lowers that tree
//! into a control-flow graph of basic blocks ([`compiler`]). Every function is
//! verified against the mathematical model of its types.
pub mod compiler;
pub mod errors;
pub mod parser;
pub mod syntax;
pub mod utils;
