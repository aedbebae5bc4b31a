//! The triangle variant: three sides plus an independent base and height and
//! a display name, with area `base * height / 2`, perimeter `a + b + c`, a
//! comma-separated decoder and a matching encoder, and equality/ordering by
//! perimeter.  No consistency between the sides and the base/height pair is
//! demanded, and no triangle inequality is checked.

use vstd::prelude::*;
use vstd::arithmetic::mul::lemma_mul_upper_bound;
use vstd::std_specs::cmp::{PartialEqSpec, PartialOrdSpec};
use core::cmp::Ordering;
use crate::fixed::{Fixed, SCALE};
use crate::numeral::{lemma_number_text_round_trip, number_text, render_number};
use crate::record::{
    lemma_split_on_no_sep,
    lemma_split_on_sep,
    name_field,
    num_field,
    num_field_ok,
    num_field_units,
    split_commas,
    split_on,
    text_field,
    DecodeError,
};
use crate::shape::Shape;

verus! {

/// A triangle: sides `a`, `b`, `c`, an independent `base` and `height`, and
/// a display name.
#[derive(Debug, Clone)]
pub struct Triangle {
    pub a: Fixed,
    pub b: Fixed,
    pub c: Fixed,
    pub base: Fixed,
    pub height: Fixed,
    pub name: String,
}

/// The text of a triangle record: the five dimensions in canonical form,
/// comma-separated, then the name.
pub open spec fn triangle_record_text(
    a: nat,
    b: nat,
    c: nat,
    base: nat,
    height: nat,
    name: Seq<char>,
) -> Seq<char> {
    number_text(a) + seq![','] + (number_text(b) + seq![','] + (number_text(c) + seq![','] + (
    number_text(base) + seq![','] + (number_text(height) + seq![','] + name))))
}

impl Triangle {
    /// Perimeter `a + b + c`, in micro-units.
    pub open spec fn spec_perimeter_units(&self) -> int {
        self.a.units + self.b.units + self.c.units
    }

    /// Area `base * height / 2`, in micro-units, rounded down.
    pub open spec fn spec_area_units(&self) -> int {
        (self.base.units as int) * (self.height.units as int) / (2 * (SCALE as int))
    }

    /// The perimeter fits the fixed-point range.
    pub open spec fn perimeter_in_range(&self) -> bool {
        self.spec_perimeter_units() <= u64::MAX
    }

    /// The area fits the fixed-point range.
    pub open spec fn area_in_range(&self) -> bool {
        self.spec_area_units() <= u64::MAX
    }

    /// Plain constructor: no validation, any dimensions and name are
    /// accepted.
    pub fn new(a: Fixed, b: Fixed, c: Fixed, base: Fixed, height: Fixed, name: String) -> (t:
        Triangle)
        ensures
            t.a == a,
            t.b == b,
            t.c == c,
            t.base == base,
            t.height == height,
            t.name == name,
    {
        Triangle { a, b, c, base, height, name }
    }

    /// Read side `a`.
    pub fn get_a(&self) -> (r: Fixed)
        ensures
            r == self.a,
    {
        self.a
    }

    /// Replace side `a`.
    pub fn set_a(&mut self, a: Fixed)
        ensures
            *final(self) == (Triangle { a, ..*old(self) }),
    {
        self.a = a;
    }

    /// Read side `b`.
    pub fn get_b(&self) -> (r: Fixed)
        ensures
            r == self.b,
    {
        self.b
    }

    /// Replace side `b`.
    pub fn set_b(&mut self, b: Fixed)
        ensures
            *final(self) == (Triangle { b, ..*old(self) }),
    {
        self.b = b;
    }

    /// Read side `c`.
    pub fn get_c(&self) -> (r: Fixed)
        ensures
            r == self.c,
    {
        self.c
    }

    /// Replace side `c`.
    pub fn set_c(&mut self, c: Fixed)
        ensures
            *final(self) == (Triangle { c, ..*old(self) }),
    {
        self.c = c;
    }

    /// Read the base.
    pub fn get_base(&self) -> (r: Fixed)
        ensures
            r == self.base,
    {
        self.base
    }

    /// Replace the base.
    pub fn set_base(&mut self, base: Fixed)
        ensures
            *final(self) == (Triangle { base, ..*old(self) }),
    {
        self.base = base;
    }

    /// Read the height.
    pub fn get_height(&self) -> (r: Fixed)
        ensures
            r == self.height,
    {
        self.height
    }

    /// Replace the height.
    pub fn set_height(&mut self, height: Fixed)
        ensures
            *final(self) == (Triangle { height, ..*old(self) }),
    {
        self.height = height;
    }

    /// The perimeter in micro-units, computed in wide arithmetic so that it
    /// is defined for every triangle.
    fn perimeter_wide(&self) -> (p: u128)
        ensures
            p == self.spec_perimeter_units(),
    {
        (self.a.units as u128) + (self.b.units as u128) + (self.c.units as u128)
    }

    /// The perimeter, or nothing when it does not fit the fixed-point
    /// range.
    pub fn checked_perimeter(&self) -> (r: Option<Fixed>)
        ensures
            match r {
                Some(p) => self.perimeter_in_range() && p.units == self.spec_perimeter_units(),
                None => !self.perimeter_in_range(),
            },
    {
        let p = self.perimeter_wide();
        if p <= u64::MAX as u128 {
            Some(Fixed { units: p as u64 })
        } else {
            None
        }
    }

    /// The area, or nothing when it does not fit the fixed-point range.
    pub fn checked_area(&self) -> (r: Option<Fixed>)
        ensures
            match r {
                Some(a) => self.area_in_range() && a.units == self.spec_area_units(),
                None => !self.area_in_range(),
            },
    {
        proof {
            lemma_mul_upper_bound(
                self.base.units as int,
                u64::MAX as int,
                self.height.units as int,
                u64::MAX as int,
            );
        }
        let bh: u128 = (self.base.units as u128) * (self.height.units as u128);
        let a: u128 = bh / (2 * (SCALE as u128));
        if a <= u64::MAX as u128 {
            Some(Fixed { units: a as u64 })
        } else {
            None
        }
    }

    /// Encode the triangle as a record: the five dimensions in canonical
    /// form, comma-separated, then the name.
    pub fn encode(&self) -> (s: String)
        ensures
            s@ == triangle_record_text(
                self.a.units as nat,
                self.b.units as nat,
                self.c.units as nat,
                self.base.units as nat,
                self.height.units as nat,
                self.name@,
            ),
    {
        proof {
            reveal_strlit(",");
            assert(","@ =~= seq![',']);
        }
        let mut s = render_number(self.a);
        s.append(",");
        let tb = render_number(self.b);
        s.append(tb.as_str());
        s.append(",");
        let tc = render_number(self.c);
        s.append(tc.as_str());
        s.append(",");
        let tbase = render_number(self.base);
        s.append(tbase.as_str());
        s.append(",");
        let th = render_number(self.height);
        s.append(th.as_str());
        s.append(",");
        s.append(self.name.as_str());
        proof {
            assert(s@ =~= triangle_record_text(
                self.a.units as nat,
                self.b.units as nat,
                self.c.units as nat,
                self.base.units as nat,
                self.height.units as nat,
                self.name@,
            ));
        }
        s
    }

    /// Decode a record `a,b,c,base,height,name`.  A present-but-malformed
    /// numeric token is an error; a missing numeric token reads as zero, a
    /// missing name as the empty label; extra tokens are ignored.
    pub fn decode(s: &str) -> (r: Result<Triangle, DecodeError>)
        ensures
            ({
                let toks = split_on(s@, ',');
                match r {
                    Ok(t) => {
                        &&& num_field_ok(toks, 0)
                        &&& num_field_ok(toks, 1)
                        &&& num_field_ok(toks, 2)
                        &&& num_field_ok(toks, 3)
                        &&& num_field_ok(toks, 4)
                        &&& t.a.units == num_field_units(toks, 0)
                        &&& t.b.units == num_field_units(toks, 1)
                        &&& t.c.units == num_field_units(toks, 2)
                        &&& t.base.units == num_field_units(toks, 3)
                        &&& t.height.units == num_field_units(toks, 4)
                        &&& t.name@ == name_field(toks, 5)
                    },
                    Err(e) => {
                        &&& !{
                            &&& num_field_ok(toks, 0)
                            &&& num_field_ok(toks, 1)
                            &&& num_field_ok(toks, 2)
                            &&& num_field_ok(toks, 3)
                            &&& num_field_ok(toks, 4)
                        }
                        &&& e == DecodeError::InvalidNumber
                    },
                }
            }),
    {
        let toks = split_commas(s);
        let a = match num_field(&toks, 0) {
            Some(v) => v,
            None => {
                return Err(DecodeError::InvalidNumber);
            },
        };
        let b = match num_field(&toks, 1) {
            Some(v) => v,
            None => {
                return Err(DecodeError::InvalidNumber);
            },
        };
        let c = match num_field(&toks, 2) {
            Some(v) => v,
            None => {
                return Err(DecodeError::InvalidNumber);
            },
        };
        let base = match num_field(&toks, 3) {
            Some(v) => v,
            None => {
                return Err(DecodeError::InvalidNumber);
            },
        };
        let height = match num_field(&toks, 4) {
            Some(v) => v,
            None => {
                return Err(DecodeError::InvalidNumber);
            },
        };
        let name = text_field(&toks, 5);
        Ok(Triangle { a, b, c, base, height, name })
    }
}

impl Default for Triangle {
    /// The baseline triangle: every dimension one, named `triangle1`.
    fn default() -> (t: Triangle)
        ensures
            t.a.units == SCALE,
            t.b.units == SCALE,
            t.c.units == SCALE,
            t.base.units == SCALE,
            t.height.units == SCALE,
            t.name@ == "triangle1"@,
    {
        Triangle {
            a: Fixed { units: SCALE },
            b: Fixed { units: SCALE },
            c: Fixed { units: SCALE },
            base: Fixed { units: SCALE },
            height: Fixed { units: SCALE },
            name: String::from_str("triangle1"),
        }
    }
}

impl Shape for Triangle {
    open spec fn area_units(&self) -> int {
        self.spec_area_units()
    }

    open spec fn perimeter_units(&self) -> int {
        self.spec_perimeter_units()
    }

    open spec fn area_fits(&self) -> bool {
        self.area_in_range()
    }

    open spec fn perimeter_fits(&self) -> bool {
        self.perimeter_in_range()
    }

    open spec fn name_chars(&self) -> Seq<char> {
        self.name@
    }

    fn area(&self) -> (r: Fixed) {
        proof {
            lemma_mul_upper_bound(
                self.base.units as int,
                u64::MAX as int,
                self.height.units as int,
                u64::MAX as int,
            );
        }
        let bh: u128 = (self.base.units as u128) * (self.height.units as u128);
        let a: u128 = bh / (2 * (SCALE as u128));
        Fixed { units: a as u64 }
    }

    fn perimeter(&self) -> (r: Fixed) {
        let p = self.perimeter_wide();
        Fixed { units: p as u64 }
    }

    fn get_name(&self) -> (r: &str) {
        self.name.as_str()
    }

    fn set_name(&mut self, name: String) {
        self.name = name;
    }
}

impl PartialEq for Triangle {
    /// Two triangles are equal exactly when their perimeters are, with no
    /// tolerance; sides, base and height play no further part.
    fn eq(&self, other: &Self) -> (r: bool) {
        self.perimeter_wide() == other.perimeter_wide()
    }

    fn ne(&self, other: &Self) -> (r: bool) {
        !self.eq(other)
    }
}

impl vstd::std_specs::cmp::PartialEqSpecImpl for Triangle {
    open spec fn obeys_eq_spec() -> bool {
        true
    }

    open spec fn eq_spec(&self, other: &Triangle) -> bool {
        self.spec_perimeter_units() == other.spec_perimeter_units()
    }
}

impl PartialOrd for Triangle {
    /// Order two triangles by perimeter.  On exact fixed-point values the
    /// order is defined for every pair.
    fn partial_cmp(&self, other: &Self) -> (r: Option<Ordering>) {
        let a = self.perimeter_wide();
        let b = other.perimeter_wide();
        if a < b {
            Some(Ordering::Less)
        } else if a == b {
            Some(Ordering::Equal)
        } else {
            Some(Ordering::Greater)
        }
    }
}

impl vstd::std_specs::cmp::PartialOrdSpecImpl for Triangle {
    open spec fn obeys_partial_cmp_spec() -> bool {
        true
    }

    open spec fn partial_cmp_spec(&self, other: &Triangle) -> Option<Ordering> {
        if self.spec_perimeter_units() < other.spec_perimeter_units() {
            Some(Ordering::Less)
        } else if self.spec_perimeter_units() == other.spec_perimeter_units() {
            Some(Ordering::Equal)
        } else {
            Some(Ordering::Greater)
        }
    }
}

/// Law: triangle equality is exactly equality of perimeters.
pub proof fn lemma_triangle_eq_is_perimeter_eq(x: Triangle, y: Triangle)
    ensures
        x.eq_spec(&y) <==> x.spec_perimeter_units() == y.spec_perimeter_units(),
{
}

/// Law: triangle inequality is exactly the negation of equality.
pub proof fn lemma_triangle_ne_is_not_eq(x: Triangle, y: Triangle)
    ensures
        !x.eq_spec(&y) <==> x.spec_perimeter_units() != y.spec_perimeter_units(),
{
}

/// Law: the perimeter order is consistent: `x` below `y` exactly when `y`
/// is above `x`, and `Equal` appears exactly on equal perimeters.
pub proof fn lemma_triangle_partial_cmp_consistent(x: Triangle, y: Triangle)
    ensures
        (x.partial_cmp_spec(&y) == Some(Ordering::Less)) <==> (y.partial_cmp_spec(&x) == Some(
            Ordering::Greater,
        )),
        (x.partial_cmp_spec(&y) == Some(Ordering::Equal)) <==> x.spec_perimeter_units()
            == y.spec_perimeter_units(),
        (x.partial_cmp_spec(&y) == Some(Ordering::Equal)) <==> x.eq_spec(&y),
{
}

/// Law: decoding an encoded triangle record gives back the same five
/// dimensions and name, for any name free of the separator.
pub proof fn lemma_triangle_round_trip(
    a: u64,
    b: u64,
    c: u64,
    base: u64,
    height: u64,
    name: Seq<char>,
)
    requires
        !name.contains(','),
    ensures
        ({
            let toks = split_on(
                triangle_record_text(
                    a as nat,
                    b as nat,
                    c as nat,
                    base as nat,
                    height as nat,
                    name,
                ),
                ',',
            );
            &&& toks.len() == 6
            &&& num_field_ok(toks, 0) && num_field_units(toks, 0) == a
            &&& num_field_ok(toks, 1) && num_field_units(toks, 1) == b
            &&& num_field_ok(toks, 2) && num_field_units(toks, 2) == c
            &&& num_field_ok(toks, 3) && num_field_units(toks, 3) == base
            &&& num_field_ok(toks, 4) && num_field_units(toks, 4) == height
            &&& name_field(toks, 5) == name
        }),
{
    lemma_number_text_round_trip(a as nat);
    lemma_number_text_round_trip(b as nat);
    lemma_number_text_round_trip(c as nat);
    lemma_number_text_round_trip(base as nat);
    lemma_number_text_round_trip(height as nat);
    assert forall|j: int| 0 <= j < name.len() implies name[j] != ',' by {
        if name[j] == ',' {
            assert(name.contains(','));
        }
    }
    lemma_split_on_no_sep(name, ',');
    let r4 = number_text(height as nat) + seq![','] + name;
    let r3 = number_text(base as nat) + seq![','] + r4;
    let r2 = number_text(c as nat) + seq![','] + r3;
    let r1 = number_text(b as nat) + seq![','] + r2;
    lemma_split_on_sep(number_text(height as nat), name, ',');
    lemma_split_on_sep(number_text(base as nat), r4, ',');
    lemma_split_on_sep(number_text(c as nat), r3, ',');
    lemma_split_on_sep(number_text(b as nat), r2, ',');
    lemma_split_on_sep(number_text(a as nat), r1, ',');
}

} // verus!
