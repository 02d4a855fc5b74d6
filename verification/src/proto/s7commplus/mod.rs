//! S7CommPlus framing, data areas, variable access and integrity blocks.
pub mod vlq;
pub mod frame;
pub mod data;
pub mod session;
pub mod multivar;
pub mod integrity;
