//! Evaluation of tree calculus terms by interaction nets: a term is compiled
//! to code that builds its graph, the graph is reduced by a fixed table of
//! interaction rules, and the normal form is read back as a term.

pub mod agent;
pub mod code;
pub mod expr;
pub mod global;
pub mod heap;
pub mod lemmas;
pub mod parse;
pub mod roundtrip;
pub mod rules;
pub mod vm;
pub mod symmetry;
