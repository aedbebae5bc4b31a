//! The numeric type every shape dimension is stored in: a non-negative
//! fixed-point decimal with six fractional digits, held as a count of
//! micro-units in a `u64`.

use vstd::prelude::*;

verus! {

/// Micro-units in one unit: all dimensions carry six fractional digits.
pub const SCALE: u64 = 1_000_000;

/// The circle constant in micro-units: pi rounded to six fractional digits.
pub const PI_UNITS: u64 = 3_141_593;

/// A non-negative fixed-point decimal: `units` micro-units, i.e. the value
/// `units / 1_000_000`.
#[derive(Clone, Copy, PartialEq, Eq, Structural, Debug)]
pub struct Fixed {
    pub units: u64,
}

impl Fixed {
    /// Build a value directly from a micro-unit count.
    pub fn from_units(units: u64) -> (r: Fixed)
        ensures
            r.units == units,
    {
        Fixed { units }
    }

    /// Build `whole.micros` from its integral part and its six-digit
    /// fractional part.
    pub fn from_parts(whole: u64, micros: u64) -> (r: Fixed)
        requires
            micros < SCALE,
            whole * SCALE + micros <= u64::MAX,
        ensures
            r.units == whole * SCALE + micros,
    {
        Fixed { units: whole * SCALE + micros }
    }

    /// The zero length.
    pub fn zero() -> (r: Fixed)
        ensures
            r.units == 0,
    {
        Fixed { units: 0 }
    }

    /// Read the micro-unit count back.
    pub fn as_units(self) -> (r: u64)
        ensures
            r == self.units,
    {
        self.units
    }

    /// The integral part of the decimal.
    pub fn whole(self) -> (r: u64)
        ensures
            r == self.units / SCALE,
    {
        self.units / SCALE
    }

    /// The fractional part of the decimal, as a count of micro-units.
    pub fn micros(self) -> (r: u64)
        ensures
            r == self.units % SCALE,
    {
        self.units % SCALE
    }
}

} // verus!
