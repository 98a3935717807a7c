//! Command Runner runs the commands that its front end configures, by PowerShell on this machine or
//! by SSH on another.
//!
//! This library holds the rules: what is run and how, what becomes of the output, how the
//! configuration is sealed and who may change it, and which files are where. What reads, writes,
//! starts and connects stays with the caller, who hands the outcome in as a plain value.

pub mod auth;
pub mod config;
pub mod crypto;
pub mod encoding;
pub mod exec;
pub mod files;
pub mod lines;
pub mod order;
pub mod paths;
pub mod powershell;
pub mod ssh;
pub mod text;
