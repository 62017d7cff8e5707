//! A defensive interpreter for the log4j-style `${...}` message template
//! grammar. It performs the same recursive substitution a vulnerable logger
//! would perform, without ever resolving a lookup, and reports which
//! dangerous lookup kinds were requested anywhere during expansion.

pub mod driver;
pub mod findings;
pub mod handlers;
pub mod laws;
pub mod model;
pub mod text;
mod tokenizer;

pub use driver::{parse, parse_str, DecodeError};
pub use findings::{Findings, Handler};
