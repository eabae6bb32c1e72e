//! What the conversation endpoints decide.

pub mod chat;
pub mod turns;
