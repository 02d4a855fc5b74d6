//! The simulated PLC: its memory and state, its connection setup, and its
//! answers to requests.
pub mod area;
pub mod dispatch;
pub mod error;
pub mod exchange;
pub mod handshake;
pub mod store;
