pub mod citations;
pub mod context;
pub mod run;
pub mod tools;
