//! Verified core of `sd`, a tool that keeps a chain of dependent git
//! branches ("a stack") rebased onto each other.
//!
//! Everything that decides or computes lives here; the thin driver in
//! `app/` runs git, touches the file system and prints.

pub mod errors;
pub mod text;
pub mod config;
pub mod state;
pub mod rebase;
pub mod fetch;
pub mod commands;
pub mod cli;
pub mod output;
pub mod command;
pub mod manage;
pub mod status;
pub mod checkout;
pub mod listing;
