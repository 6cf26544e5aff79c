//! Queries against a repository of the domain.
pub mod get_assignable_members;
pub mod get_issues;
pub mod get_org;
