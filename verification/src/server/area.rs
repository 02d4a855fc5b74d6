//! Area codes the simulated PLC recognises.
use vstd::prelude::*;

verus! {

pub const PROCESS_INPUTS: u8 = 0x81;
pub const PROCESS_OUTPUTS: u8 = 0x82;
pub const MARKERS: u8 = 0x83;
pub const DATA_BLOCK: u8 = 0x84;
pub const INSTANCE_DB: u8 = 0x85;
pub const LOCAL_DATA: u8 = 0x86;
pub const TIMER: u8 = 0x1D;
pub const COUNTER: u8 = 0x1C;

} // verus!
