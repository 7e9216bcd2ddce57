//! Verified core of the telos agent runtime.
use vstd::prelude::*;

pub mod context;
pub mod deepseek_response;
pub mod diagnostics;
pub mod error;
pub mod events;
pub mod hooks;
pub mod http_hook;
pub mod json;
pub mod lsp_protocol;
pub mod marketplace;
pub mod marketplace_registry;
pub mod memory;
pub mod message;
pub mod metrics;
pub mod pattern;
pub mod plugin_closure;
pub mod plugin_command;
pub mod plugin_config;
pub mod plugin_config_store;
pub mod plugin_discovery;
pub mod plugin_graph;
pub mod plugin_id;
pub mod plugin_install;
pub mod plugin_manifest;
pub mod plugin_paths;
pub mod plugin_policies;
pub mod plugin_registry;
pub mod plugin_tools;
pub mod provider;
pub mod skills;
pub mod subagent;
pub mod text;
pub mod turn;

verus! {

} // verus!
