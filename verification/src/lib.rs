//! Host-side runtime for a tile-based accelerator: memory layout, program
//! planning, command encoding and kernel image preparation, with machine
//! checked contracts.

use vstd::prelude::*;

pub mod arith;
pub mod bridge;
pub mod bytes;
pub mod compiler;
pub mod convert;
pub mod cores;
pub mod cq;
pub mod device;
pub mod dispatch;
pub mod dram;
pub mod error;
pub mod executable;
pub mod float_bits;
pub mod hw;
pub mod kernels;
pub mod numbers;
pub mod path;
pub mod source;
pub mod text;

verus! {

} // verus!
