//! The circle variant: a radius and a display name, with area `pi * r * r`,
//! perimeter `2 * pi * r`, a comma-separated decoder and a matching encoder,
//! and equality/ordering by perimeter.

use vstd::prelude::*;
use vstd::arithmetic::div_mod::{lemma_div_is_ordered, lemma_fundamental_div_mod, lemma_mod_bound};
use vstd::arithmetic::mul::{lemma_mul_inequality, lemma_mul_upper_bound};
use vstd::std_specs::cmp::{PartialEqSpec, PartialOrdSpec};
use core::cmp::Ordering;
use crate::fixed::{Fixed, PI_UNITS, SCALE};
use crate::numeral::{lemma_number_text_round_trip, number_text, render_number};
use crate::record::{
    lemma_split_on_no_sep,
    lemma_split_on_sep,
    name_field,
    num_field,
    num_field_ok,
    num_field_units,
    split_commas,
    split_on,
    text_field,
    DecodeError,
};
use crate::shape::Shape;

verus! {

/// A circle: its radius and a display name.  No positivity of the radius is
/// demanded beyond the non-negativity `Fixed` builds in.
#[derive(Debug, Clone)]
pub struct Circle {
    pub radius: Fixed,
    pub name: String,
}

impl Circle {
    /// Perimeter `2 * pi * r`, in micro-units, rounded down.
    pub open spec fn spec_perimeter_units(&self) -> int {
        2 * (PI_UNITS as int) * (self.radius.units as int) / (SCALE as int)
    }

    /// Area `pi * r * r`, in micro-units, rounded down.
    pub open spec fn spec_area_units(&self) -> int {
        (PI_UNITS as int) * ((self.radius.units as int) * (self.radius.units as int)) / (
        (SCALE as int) * (SCALE as int))
    }

    /// The perimeter fits the fixed-point range.
    pub open spec fn perimeter_in_range(&self) -> bool {
        self.spec_perimeter_units() <= u64::MAX
    }

    /// The area fits the fixed-point range.
    pub open spec fn area_in_range(&self) -> bool {
        self.spec_area_units() <= u64::MAX
    }

    /// Plain constructor: no validation, any radius and name are accepted.
    pub fn new(radius: Fixed, name: String) -> (c: Circle)
        ensures
            c.radius == radius,
            c.name == name,
    {
        Circle { radius, name }
    }

    /// Read the radius.
    pub fn get_radius(&self) -> (r: Fixed)
        ensures
            r == self.radius,
    {
        self.radius
    }

    /// Replace the radius.
    pub fn set_radius(&mut self, radius: Fixed)
        ensures
            final(self).radius == radius,
            final(self).name == old(self).name,
    {
        self.radius = radius;
    }

    /// The perimeter in micro-units, computed in wide arithmetic so that it
    /// is defined for every radius.
    fn perimeter_wide(&self) -> (p: u128)
        ensures
            p == self.spec_perimeter_units(),
    {
        proof {
            lemma_mul_upper_bound(
                2 * (PI_UNITS as int),
                2 * (PI_UNITS as int),
                self.radius.units as int,
                u64::MAX as int,
            );
        }
        2 * (PI_UNITS as u128) * (self.radius.units as u128) / (SCALE as u128)
    }

    /// The perimeter, or nothing when it does not fit the fixed-point
    /// range.
    pub fn checked_perimeter(&self) -> (r: Option<Fixed>)
        ensures
            match r {
                Some(p) => self.perimeter_in_range() && p.units == self.spec_perimeter_units(),
                None => !self.perimeter_in_range(),
            },
    {
        let p = self.perimeter_wide();
        if p <= u64::MAX as u128 {
            Some(Fixed { units: p as u64 })
        } else {
            None
        }
    }

    /// The area, or nothing when it does not fit the fixed-point range.
    pub fn checked_area(&self) -> (r: Option<Fixed>)
        ensures
            match r {
                Some(a) => self.area_in_range() && a.units == self.spec_area_units(),
                None => !self.area_in_range(),
            },
    {
        let ru = self.radius.units;
        proof {
            lemma_mul_upper_bound(ru as int, u64::MAX as int, ru as int, u64::MAX as int);
        }
        let rr: u128 = (ru as u128) * (ru as u128);
        let cap: u128 = u128::MAX / (PI_UNITS as u128);
        if rr > cap {
            proof {
                let pi = PI_UNITS as int;
                let rr_i = (ru as int) * (ru as int);
                lemma_fundamental_div_mod(u128::MAX as int, pi);
                lemma_mod_bound(u128::MAX as int, pi);
                lemma_mul_inequality(cap as int + 1, rr_i, pi);
                lemma_div_is_ordered(
                    u128::MAX as int + 1,
                    pi * rr_i,
                    (SCALE as int) * (SCALE as int),
                );
            }
            return None;
        }
        proof {
            let pi = PI_UNITS as int;
            let rr_i = (ru as int) * (ru as int);
            lemma_mul_inequality(rr_i, cap as int, pi);
            lemma_fundamental_div_mod(u128::MAX as int, pi);
            lemma_mod_bound(u128::MAX as int, pi);
        }
        let a: u128 = (PI_UNITS as u128) * rr / ((SCALE as u128) * (SCALE as u128));
        if a <= u64::MAX as u128 {
            Some(Fixed { units: a as u64 })
        } else {
            None
        }
    }

    /// Encode the circle as a record: canonical radius text, a comma, the
    /// name.
    pub fn encode(&self) -> (s: String)
        ensures
            s@ == number_text(self.radius.units as nat) + seq![','] + self.name@,
    {
        let mut s = render_number(self.radius);
        proof {
            reveal_strlit(",");
            assert(","@ =~= seq![',']);
        }
        s.append(",");
        s.append(self.name.as_str());
        s
    }

    /// Decode a record `radius,name`.  A present-but-malformed radius token
    /// is an error; a missing name token reads as the empty label; extra
    /// tokens are ignored.
    pub fn decode(s: &str) -> (r: Result<Circle, DecodeError>)
        ensures
            ({
                let toks = split_on(s@, ',');
                match r {
                    Ok(c) => {
                        &&& num_field_ok(toks, 0)
                        &&& c.radius.units == num_field_units(toks, 0)
                        &&& c.name@ == name_field(toks, 1)
                    },
                    Err(e) => {
                        &&& !num_field_ok(toks, 0)
                        &&& e == DecodeError::InvalidNumber
                    },
                }
            }),
    {
        let toks = split_commas(s);
        let radius = match num_field(&toks, 0) {
            Some(v) => v,
            None => {
                return Err(DecodeError::InvalidNumber);
            },
        };
        let name = text_field(&toks, 1);
        Ok(Circle { radius, name })
    }
}

impl Default for Circle {
    /// The baseline circle: radius one, named `Circle1`.
    fn default() -> (c: Circle)
        ensures
            c.radius.units == SCALE,
            c.name@ == "Circle1"@,
    {
        Circle { radius: Fixed { units: SCALE }, name: String::from_str("Circle1") }
    }
}

impl Shape for Circle {
    open spec fn area_units(&self) -> int {
        self.spec_area_units()
    }

    open spec fn perimeter_units(&self) -> int {
        self.spec_perimeter_units()
    }

    open spec fn area_fits(&self) -> bool {
        self.area_in_range()
    }

    open spec fn perimeter_fits(&self) -> bool {
        self.perimeter_in_range()
    }

    open spec fn name_chars(&self) -> Seq<char> {
        self.name@
    }

    fn area(&self) -> (r: Fixed) {
        let ru = self.radius.units;
        proof {
            lemma_mul_upper_bound(ru as int, u64::MAX as int, ru as int, u64::MAX as int);
            let rr = (ru as int) * (ru as int);
            lemma_fundamental_div_mod(
                (PI_UNITS as int) * rr,
                (SCALE as int) * (SCALE as int),
            );
            lemma_mod_bound((PI_UNITS as int) * rr, (SCALE as int) * (SCALE as int));
        }
        let rr: u128 = (ru as u128) * (ru as u128);
        let a: u128 = (PI_UNITS as u128) * rr / ((SCALE as u128) * (SCALE as u128));
        Fixed { units: a as u64 }
    }

    fn perimeter(&self) -> (r: Fixed) {
        let p = self.perimeter_wide();
        Fixed { units: p as u64 }
    }

    fn get_name(&self) -> (r: &str) {
        self.name.as_str()
    }

    fn set_name(&mut self, name: String) {
        self.name = name;
    }
}

impl PartialEq for Circle {
    /// Two circles are equal exactly when their perimeters are, with no
    /// tolerance.
    fn eq(&self, other: &Self) -> (r: bool) {
        self.perimeter_wide() == other.perimeter_wide()
    }

    fn ne(&self, other: &Self) -> (r: bool) {
        !self.eq(other)
    }
}

impl vstd::std_specs::cmp::PartialEqSpecImpl for Circle {
    open spec fn obeys_eq_spec() -> bool {
        true
    }

    open spec fn eq_spec(&self, other: &Circle) -> bool {
        self.spec_perimeter_units() == other.spec_perimeter_units()
    }
}

impl PartialOrd for Circle {
    /// Order two circles by perimeter.  On exact fixed-point values the
    /// order is defined for every pair.
    fn partial_cmp(&self, other: &Self) -> (r: Option<Ordering>) {
        let a = self.perimeter_wide();
        let b = other.perimeter_wide();
        if a < b {
            Some(Ordering::Less)
        } else if a == b {
            Some(Ordering::Equal)
        } else {
            Some(Ordering::Greater)
        }
    }
}

impl vstd::std_specs::cmp::PartialOrdSpecImpl for Circle {
    open spec fn obeys_partial_cmp_spec() -> bool {
        true
    }

    open spec fn partial_cmp_spec(&self, other: &Circle) -> Option<Ordering> {
        if self.spec_perimeter_units() < other.spec_perimeter_units() {
            Some(Ordering::Less)
        } else if self.spec_perimeter_units() == other.spec_perimeter_units() {
            Some(Ordering::Equal)
        } else {
            Some(Ordering::Greater)
        }
    }
}

/// Law: circle equality is exactly equality of perimeters.
pub proof fn lemma_circle_eq_is_perimeter_eq(x: Circle, y: Circle)
    ensures
        x.eq_spec(&y) <==> x.spec_perimeter_units() == y.spec_perimeter_units(),
{
}

/// Law: circle inequality is exactly the negation of equality.
pub proof fn lemma_circle_ne_is_not_eq(x: Circle, y: Circle)
    ensures
        !x.eq_spec(&y) <==> x.spec_perimeter_units() != y.spec_perimeter_units(),
{
}

/// Law: the perimeter order is consistent: `x` below `y` exactly when `y`
/// is above `x`, and `Equal` appears exactly on equal perimeters.
pub proof fn lemma_circle_partial_cmp_consistent(x: Circle, y: Circle)
    ensures
        (x.partial_cmp_spec(&y) == Some(Ordering::Less)) <==> (y.partial_cmp_spec(&x) == Some(
            Ordering::Greater,
        )),
        (x.partial_cmp_spec(&y) == Some(Ordering::Equal)) <==> x.spec_perimeter_units()
            == y.spec_perimeter_units(),
        (x.partial_cmp_spec(&y) == Some(Ordering::Equal)) <==> x.eq_spec(&y),
{
}

/// Law: decoding an encoded circle record gives back the same radius and
/// name, for any name free of the separator.
pub proof fn lemma_circle_round_trip(radius: u64, name: Seq<char>)
    requires
        !name.contains(','),
    ensures
        ({
            let toks = split_on(number_text(radius as nat) + seq![','] + name, ',');
            &&& toks.len() == 2
            &&& num_field_ok(toks, 0)
            &&& num_field_units(toks, 0) == radius
            &&& name_field(toks, 1) == name
        }),
{
    lemma_number_text_round_trip(radius as nat);
    let nt = number_text(radius as nat);
    lemma_split_on_sep(nt, name, ',');
    assert forall|j: int| 0 <= j < name.len() implies name[j] != ',' by {
        if name[j] == ',' {
            assert(name.contains(','));
        }
    }
    lemma_split_on_no_sep(name, ',');
}

} // verus!
