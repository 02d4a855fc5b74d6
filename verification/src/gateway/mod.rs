//! The OPC-UA gateway's logic: its configuration, the registry that maps OPC-UA
//! nodes to PLC tags, and the conversions between PLC bytes and node values.
pub mod bridge;
pub mod config;
pub mod error;
pub mod registry;
pub mod setup;
pub mod values;
