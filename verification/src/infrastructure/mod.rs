//! Adapters to outside services.
pub mod github_adapter;
