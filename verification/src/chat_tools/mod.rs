//! What a chat turn can do: read, search and write the knowledge base, within
//! the conversation's scope.
//!
//! Tools that surface knowledge register it with the run's citation ledger and
//! put the number they get back into their own output: that number is the
//! `[N]` that the model must write for the source to reach the user.

pub mod changes;
pub mod definitions;
pub mod lookup;
pub mod reading;
pub mod scope;
