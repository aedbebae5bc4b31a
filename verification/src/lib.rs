//! Toy geometry library: two shape value types (circle, triangle) sharing a
//! small capability contract, a decoder for comma-separated text records, and
//! a perimeter-based equality/ordering policy.
//!
//! Dimensions are non-negative fixed-point decimals with six fractional
//! digits, so arithmetic and comparisons are exact.

pub mod fixed;
pub mod numeral;
pub mod record;
pub mod shape;
pub mod circle;
pub mod triangle;
