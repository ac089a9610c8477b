//! MCP server entries of a configuration file.

use vstd::prelude::*;
use std::collections::HashMap;

verus! {

/// One MCP server as configured: its transport type where stated, and how
/// to reach or start it.
pub struct MCPServerConfig {
    pub server_type: Option<String>,
    pub url: Option<String>,
    pub command: Option<String>,
    pub args: Option<Vec<String>>,
    pub headers: Option<HashMap<String, String>>,
    pub env: Option<HashMap<String, String>>,
}

/// The transport of a server: the stated type, else `stdio` for a server
/// started by a command, else `http`.
pub open spec fn server_type_of(config: MCPServerConfig) -> Seq<char> {
    match config.server_type {
        Some(t) => t@,
        None => if config.command is Some {
            "stdio"@
        } else {
            "http"@
        },
    }
}

/// The transport of a server, as `server_type_of` states it.
pub fn infer_server_type(config: &MCPServerConfig) -> (r: String)
    ensures
        r@ == server_type_of(*config),
{
    if let Some(t) = &config.server_type {
        return t.clone();
    }
    if config.command.is_some() {
        return String::from_str("stdio");
    }
    String::from_str("http")
}

} // verus!
