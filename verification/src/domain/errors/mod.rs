//! Errors of the domain.
pub mod issue_types;
pub mod member;
