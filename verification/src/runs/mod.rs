//! Evidence runs: what they look for in a log, how they watch a replaying engine, and how they
//! judge what they saw.

pub mod agreement;
pub mod bounds;
pub mod burst;
pub mod seek;
pub mod vm_status;
pub mod week;
