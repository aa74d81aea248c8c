//! Read-only X/Twitter retrieval logic: input validation, account selection,
//! command-line grammar, bounded pagination and cache policy.
pub mod error;
pub mod text;
pub mod hashing;
pub mod model;
pub mod input;
pub mod config;
pub mod cli;
pub mod task;
pub mod pagination;
pub mod credentials;
pub mod cache;
pub mod retrieval;
pub mod human;
pub mod flow;
