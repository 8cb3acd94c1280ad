//! Signed fixed-point numbers with eighteen decimal places, verified with Verus.
//!
//! `Fixed128` holds a number as its parts, `DIV` (10^18) of which make one.
//! Its arithmetic is stated over those parts in `fixed_128`; the properties
//! that relate its operations are proved in `laws`.

pub mod arith;
pub mod decimal;
pub mod fixed_128;
pub mod laws;
pub mod operand;
pub mod wide;

pub use fixed_128::{Fixed128, DIV};
pub use operand::FixedPointOperand;
