//! Verified core of an MCP server that bridges AI agents to debug adapters
//! speaking the Debug Adapter Protocol (DAP).

pub mod text;
pub mod error;
pub mod config;
pub mod dap;
pub mod json;
pub mod context;
pub mod state;
pub mod services;
pub mod tools;
