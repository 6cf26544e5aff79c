//! The decisions of the use cases.
pub mod close_issues;
pub mod create_issue;
