//! A model checker for the modal mu-calculus over labelled transition systems.
pub mod aldebaran;
pub mod collections;
pub mod depth;
pub mod emerson_lei;
pub mod environment;
pub mod formula;
pub mod kripke;
pub mod laws;
pub mod naive;
pub mod parser;
pub mod semantics;
pub mod state_set;
pub mod text;
