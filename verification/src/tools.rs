//! The decisions and texts behind the MCP tools exposed to agents.

pub mod breakpoint;
pub mod execution;
pub mod inspect;
pub mod paging;
pub mod launch;
pub mod feedback;
