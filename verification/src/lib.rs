//! Walsh-Hadamard transform with verified contracts.
//!
//! Every transform variant is specified against the same direct-sum
//! definition of the transform, `transform::wht_spec`, whose signs come from
//! the parity of the binary dot product of the row and column indices.

pub mod parity;
pub mod transform;
pub mod fast;
pub mod kernels;
pub mod blocks;
pub mod naive;
pub mod laws;

pub use parity::{binary_dot_product, is_power_of_two};
pub use fast::{fwht, fwht_stage};
pub use kernels::{wht2, wht4, wht8};
pub use blocks::{Lane4, Lane8, fwht4, fwht8, fwht4_checked, fwht8_checked};
pub use naive::Naive;
