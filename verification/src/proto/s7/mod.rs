//! The classic S7 protocol (S7-300/400/1200).
pub mod clock;
pub mod header;
pub mod negotiate;
pub mod read_var;
pub mod szl;
pub mod write_var;
