//! A stand-in for the providers: one server that speaks the wire formats of
//! all of them, with knobs for a test to turn and counters for it to read.

pub mod answers;
pub mod embeddings;
pub mod requests;
pub mod responses;
pub mod server;
pub mod streams;
