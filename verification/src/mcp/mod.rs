//! The server that agents reach the knowledge base through, over the Model
//! Context Protocol.

pub mod browse;
pub mod catalog;
pub mod reads;
pub mod types;
pub mod writes;
