pub mod assembly;
pub mod chat_api;
pub mod error;
pub mod framing;
pub mod ollama;
pub mod openai_compat;
pub mod openrouter;
pub mod types;
