//! Transaction-fee computation for a blockchain network.
//!
//! A fee is computed from a computational weight and a byte length, through a
//! configurable polynomial cost model and a congestion-sensitive multiplier.
//! Every arithmetic step saturates at the bounds of its fixed integer width,
//! so a fee query is total: it never overflows and never panics.

pub mod arith;
pub mod fixed;
pub mod multiplier;
pub mod poly;
pub mod calc;
