//! An encrypted prompt repository with a verified chain execution engine.
//!
//! Prompt templates are stored at rest under authenticated encryption and can
//! be executed singly or as multi-step chains against pluggable
//! text-generation providers, with `{{name}}` variable substitution and
//! outputs passed forward through a shared context.

pub mod chain;
pub mod cli;
pub mod codec;
pub mod crypto;
pub mod engine;
pub mod errors;
pub mod jsonstr;
pub mod kvmap;
pub mod paths;
pub mod record;
pub mod runner;
pub mod store;
pub mod template;
pub mod text;
pub mod trusted;
