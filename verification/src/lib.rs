use vstd::prelude::*;

pub mod agent_runtime;
pub mod chat_title;
pub mod chat_tools;
pub mod json;
pub mod mcp;
pub mod mock_ai;
pub mod outside;
pub mod providers;
pub mod routes;
pub mod text;

verus! {

} // verus!
