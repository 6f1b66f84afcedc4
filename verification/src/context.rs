//! The context optimizer: what the server does to debugger output before it
//! reaches the agent (sanitizing, truncating, paginating, source excerpts).

pub mod sanitize;
pub mod truncation;
pub mod pagination;
pub mod source;
