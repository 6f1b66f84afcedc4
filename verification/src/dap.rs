//! Debug Adapter Protocol: wire framing and session lifecycle.

pub mod state_machine;
pub mod header;
pub mod codec;
pub mod types;
pub mod request;
pub mod roundtrip;
