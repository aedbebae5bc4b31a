//! The capability contract shared by every shape variant: compute area and
//! perimeter, and read or replace the display name.

use vstd::prelude::*;
use crate::fixed::Fixed;

verus! {

/// What any shape kind supports.  Areas and perimeters are stated in
/// micro-units (millionths) so that every contract is exact.
pub trait Shape: Sized {
    /// The shape's area in micro-units, by its variant's formula.
    spec fn area_units(&self) -> int;

    /// The shape's perimeter in micro-units, by its variant's formula.
    spec fn perimeter_units(&self) -> int;

    /// The area value fits the fixed-point range.
    spec fn area_fits(&self) -> bool;

    /// The perimeter value fits the fixed-point range.
    spec fn perimeter_fits(&self) -> bool;

    /// The display name.
    spec fn name_chars(&self) -> Seq<char>;

    /// Compute the area.
    fn area(&self) -> (r: Fixed)
        requires
            self.area_fits(),
        ensures
            r.units == self.area_units(),
    ;

    /// Compute the perimeter.
    fn perimeter(&self) -> (r: Fixed)
        requires
            self.perimeter_fits(),
        ensures
            r.units == self.perimeter_units(),
    ;

    /// Read the display name.
    fn get_name(&self) -> (r: &str)
        ensures
            r@ == self.name_chars(),
    ;

    /// Replace the display name; the geometry is untouched.
    fn set_name(&mut self, name: String)
        ensures
            final(self).name_chars() == name@,
            final(self).area_units() == old(self).area_units(),
            final(self).perimeter_units() == old(self).perimeter_units(),
            final(self).area_fits() == old(self).area_fits(),
            final(self).perimeter_fits() == old(self).perimeter_fits(),
    ;
}

} // verus!
