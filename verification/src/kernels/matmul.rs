//! Matrix multiplication in bf16: planning, operand views and programs.

pub mod blocks;
pub mod compute;
pub mod plan;
pub mod prefer;
pub mod program;
pub mod request;
pub mod search;
pub mod shape;
pub mod views;
