//! A number-guessing engine: a whitespace-separated integer parser and a
//! binary-search bounds state machine, with verified contracts.

pub mod guessing;
pub mod parseargs;
