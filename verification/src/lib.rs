//! Daily standup meetings: the rules that decide which standup issue a
//! repository gets, who is mentioned in it and who is assigned to it.
pub mod text;
pub mod config;
pub mod github;
pub mod dsm;
pub mod domain;
pub mod application;
pub mod infrastructure;
