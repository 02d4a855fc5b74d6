//! Siemens S7 protocol stack: frame codecs, request planning, a simulated
//! PLC data store and partner fragmentation, with their contracts.
pub mod ascii;
pub mod client;
pub mod error;
pub mod gateway;
pub mod proto;
pub mod partner;
pub mod server;
pub mod tag;
pub mod text;
pub mod types;
pub mod wire;
