//! Use cases and the queries they run.
pub mod queries;
pub mod use_cases;
