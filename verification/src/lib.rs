//! Envly: a vault of secrets organised into projects, environments and
//! variable mappings, with the `.env` text format, the encrypted payloads
//! and the bookkeeping of activated environments.

pub mod text;
pub mod seqs;
pub mod error;
pub mod ids;
pub mod models;
pub mod resolver;
pub mod envfile;
pub mod crypto;
pub mod paths;
pub mod vault_file;
pub mod symlink;
pub mod registry;
pub mod state;
pub mod commands;
