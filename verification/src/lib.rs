//! Runtime engine that executes grammar rules as a population of cooperating
//! finite automata. The arena in [`automata`] owns every automaton of one
//! parse attempt; the command interpreter advances, branches, completes and
//! retires them while keeping every still-relevant alternative derivation
//! intact, and is verified against the mathematical model in [`model`].

pub mod automata;
pub mod laws;
pub mod lex;
pub mod model;
