//! A shell-command-history collection service, verified.
//!
//! Remote terminal sessions report executed commands (with exit status,
//! working directory, and a per-session sequence index); the service records
//! them in a store and can replay the most recent entries as a flat digest.

pub mod command;
pub mod store;
pub mod codec;
pub mod render;
pub mod handler;
