//! A verified issue collaborative object: a replicated issue whose current
//! value is a deterministic fold over an append-only, causally ordered log of
//! authored actions. Replicas that hold the same set of actions materialize
//! identical issues, whatever the order of arrival.

pub mod action;
pub mod alias;
pub mod convergence;
pub mod digest;
pub mod errors;
pub mod issue;
pub mod laws;
pub mod log;
pub mod query;
pub mod seqextra;
pub mod setvec;
pub mod store;
