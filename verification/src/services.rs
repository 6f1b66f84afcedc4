//! Background services of a debug session.

pub mod event_loop;
