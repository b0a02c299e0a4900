//! Encodes an ordered collection and a target value into a delimiter-framed,
//! line-oriented text protocol for submission to an external search oracle,
//! and turns the oracle's structured reply back into a list of matching
//! positions.

pub mod batch;
pub mod digest;
pub mod error;
pub mod frame;
pub mod protocol;
pub mod query;
pub mod reply;
pub mod text;
