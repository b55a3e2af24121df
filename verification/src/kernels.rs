//! Kernels: for each operation the checks, the shapes, the generated sources
//! and the arguments of the cores.

pub mod add;
pub mod argmax;
pub mod binary_eltwise;
pub mod bitwise;
pub mod bitwise_reduce;
pub mod broadcast;
pub mod buffers;
pub mod common;
pub mod concatenate;
pub mod constant;
pub mod defines;
pub mod dims;
pub mod dot_general;
pub mod dynamic_update_slice;
pub mod fused;
pub mod gather;
pub mod heads;
pub mod iota;
pub mod kernel;
pub mod lowering;
pub mod matmul;
pub mod matmul_ws;
pub mod pad;
pub mod patches;
pub mod places;
pub mod reduce;
pub mod shares;
pub mod types;
