//! The entities that the use cases work on.
pub mod errors;
pub mod issue;
pub mod member;
