//! Profile manager core for switching Codex accounts and model providers.
use vstd::prelude::*;

pub mod auth;
pub mod auth_refresh;
pub mod commands;
pub mod config;
pub mod config_laws;
pub mod history;
pub mod history_laws;
pub mod injection_laws;
pub mod injections;
pub mod json;
pub mod lists;
pub mod login_laws;
pub mod migrate;
pub mod migration_laws;
pub mod moments;
pub mod oauth;
pub mod order;
pub mod overrides;
pub mod paths;
pub mod provider;
pub mod reports;
pub mod service;
pub mod session_laws;
pub mod sessions;
pub mod setup;
pub mod step_laws;
pub mod sync;
pub mod text;
pub mod text_laws;
pub mod tokens;
pub mod toml_docs;

verus! {

} // verus!
