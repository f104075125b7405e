//! A permissive JSON parser: strict JSON plus opt-in JavaScript-style
//! relaxations, with every function verified against a mathematical
//! description of the grammar.

pub mod parser;
