//! Fixed-point numbers and points ordered by simulation of simplicity.
//!
//! A `FixedNumber` stores a real number `r` as the integer `r * SCALE`.
//! Coordinates remember which axis they belong to so that ties between
//! equal values can be broken consistently: the result is a strict total
//! order on (value, point index, axis) triples.
use vstd::prelude::*;

verus! {

/// `fx_add`, computed.
pub fn checked_fx_add(a: i128, b: i128) -> (r: Option<i128>)
    ensures
        match r {
            Some(v) => fx_add(a as int, b as int) == Some(v as int),
            None => fx_add(a as int, b as int) is None,
        },
{
    a.checked_add(b)
}

/// `fx_sub`, computed.
pub fn checked_fx_sub(a: i128, b: i128) -> (r: Option<i128>)
    ensures
        match r {
            Some(v) => fx_sub(a as int, b as int) == Some(v as int),
            None => fx_sub(a as int, b as int) is None,
        },
{
    a.checked_sub(b)
}

/// `fx_mul`, computed.
pub fn checked_fx_mul(a: i128, b: i128) -> (r: Option<i128>)
    ensures
        match r {
            Some(v) => fx_mul(a as int, b as int) == Some(v as int),
            None => fx_mul(a as int, b as int) is None,
        },
{
    match a.checked_mul(b) {
        Some(_) => Some(FixedNumber(a).mul(FixedNumber(b)).0),
        None => None,
    }
}

/// `fx_div`, computed.
pub fn checked_fx_div(a: i128, b: i128) -> (r: Option<i128>)
    ensures
        match r {
            Some(v) => fx_div(a as int, b as int) == Some(v as int),
            None => fx_div(a as int, b as int) is None,
        },
{
    if b == 0 {
        return None;
    }
    match a.checked_mul(SCALE) {
        None => None,
        Some(p) => {
            if p == i128::MIN && b == -1 {
                assert(trunc_div(p as int, b as int) == -(p as int)) by {
                    assert(abs(p as int) / abs(b as int) == abs(p as int));
                }
                None
            } else {
                assert(fits_i128(trunc_div(p as int, b as int))) by {
                    lemma_trunc_div_fits(p as int, b as int);
                }
                Some(FixedNumber(a).div(FixedNumber(b)).0)
            }
        },
    }
}

proof fn lemma_trunc_div_fits(p: int, b: int)
    requires
        fits_i128(p),
        fits_i128(b),
        b != 0,
        !(p == i128::MIN && b == -1),
    ensures
        fits_i128(trunc_div(p, b)),
{
    let q = abs(p) / abs(b);
    assert(0 <= q <= abs(p)) by (nonlinear_arith)
        requires
            abs(p) >= 0,
            abs(b) >= 1,
            q == abs(p) / abs(b),
    ;
    if abs(b) >= 2 {
        assert(q <= abs(p) / 2) by (nonlinear_arith)
            requires
                abs(p) >= 0,
                abs(b) >= 2,
                q == abs(p) / abs(b),
        ;
    }
}

/// One unit in fixed-point representation (`2^62`).
pub const SCALE: i128 = 4611686018427387904;

/// The integer range that an `i128` holds.
pub open spec fn fits_i128(v: int) -> bool {
    i128::MIN <= v <= i128::MAX
}

/// Integer division that rounds toward zero, as Rust's `/` does.
pub open spec fn trunc_div(a: int, b: int) -> int {
    if b == 0 {
        0
    } else {
        let q = abs(a) / abs(b);
        if (a < 0) != (b < 0) {
            -q
        } else {
            q
        }
    }
}

pub open spec fn abs(a: int) -> int {
    if a < 0 {
        -a
    } else {
        a
    }
}

/// The fixed-point product of two raw values.
pub open spec fn fixed_mul(a: int, b: int) -> int {
    trunc_div(a * b, SCALE as int)
}

/// The fixed-point quotient of two raw values.
pub open spec fn fixed_div(a: int, b: int) -> int {
    trunc_div(a * SCALE, b)
}

/// Rust's `/` on `i128` rounds toward zero for any nonzero divisor.
fn div_toward_zero(a: i128, b: i128) -> (q: i128)
    requires
        b != 0,
        fits_i128(trunc_div(a as int, b as int)),
    ensures
        q == trunc_div(a as int, b as int),
{
    if b > 0 {
        a / b
    } else if b == i128::MIN {
        if a == i128::MIN {
            assert(abs(a as int) / abs(b as int) == 1) by (nonlinear_arith)
                requires
                    abs(a as int) == abs(b as int),
                    abs(b as int) > 0,
            ;
            1
        } else {
            assert(abs(a as int) / abs(b as int) == 0) by (nonlinear_arith)
                requires
                    0 <= abs(a as int) < abs(b as int),
            ;
            0
        }
    } else {
        let nb: i128 = -b;
        let q = a / nb;
        0 - q
    }
}

/// The sum of two raw values, where it fits in an `i128`.
pub open spec fn fx_add(a: int, b: int) -> Option<int> {
    if fits_i128(a + b) {
        Some(a + b)
    } else {
        None
    }
}

/// The difference of two raw values, where it fits in an `i128`.
pub open spec fn fx_sub(a: int, b: int) -> Option<int> {
    if fits_i128(a - b) {
        Some(a - b)
    } else {
        None
    }
}

/// The fixed-point product of two raw values, where the raw product fits.
pub open spec fn fx_mul(a: int, b: int) -> Option<int> {
    if fits_i128(a * b) {
        Some(fixed_mul(a, b))
    } else {
        None
    }
}

/// The fixed-point quotient of two raw values, where the divisor is not zero
/// and every intermediate value fits.
pub open spec fn fx_div(a: int, b: int) -> Option<int> {
    if b != 0 && fits_i128(a * SCALE) && fits_i128(fixed_div(a, b)) {
        Some(fixed_div(a, b))
    } else {
        None
    }
}

/// `fx_add` on results that may already have failed.
pub open spec fn opt_add(a: Option<int>, b: Option<int>) -> Option<int> {
    match (a, b) {
        (Some(x), Some(y)) => fx_add(x, y),
        _ => None,
    }
}

/// `fx_mul` on results that may already have failed.
pub open spec fn opt_mul(a: Option<int>, b: Option<int>) -> Option<int> {
    match (a, b) {
        (Some(x), Some(y)) => fx_mul(x, y),
        _ => None,
    }
}

/// `fx_div` on results that may already have failed.
pub open spec fn opt_div(a: Option<int>, b: Option<int>) -> Option<int> {
    match (a, b) {
        (Some(x), Some(y)) => fx_div(x, y),
        _ => None,
    }
}

/// A number in fixed-point representation: the raw value `r` stands for `r / SCALE`.
#[derive(Clone, Copy, PartialEq, Eq, Structural, Debug)]
pub struct FixedNumber(pub i128);

impl FixedNumber {
    /// The raw integer behind this number.
    pub open spec fn raw(self) -> int {
        self.0 as int
    }

    /// The fixed-point number that stands for the integer `i`.
    pub fn from_integer(i: i128) -> (r: FixedNumber)
        requires
            fits_i128(i * SCALE),
        ensures
            r.raw() == i * SCALE,
    {
        FixedNumber(i * SCALE)
    }

    pub fn add(self, other: FixedNumber) -> (r: FixedNumber)
        requires
            fits_i128(self.raw() + other.raw()),
        ensures
            r.raw() == self.raw() + other.raw(),
    {
        FixedNumber(self.0 + other.0)
    }

    pub fn sub(self, other: FixedNumber) -> (r: FixedNumber)
        requires
            fits_i128(self.raw() - other.raw()),
        ensures
            r.raw() == self.raw() - other.raw(),
    {
        FixedNumber(self.0 - other.0)
    }

    /// Fixed-point product: the raw product scaled back down, rounded toward zero.
    pub fn mul(self, other: FixedNumber) -> (r: FixedNumber)
        requires
            fits_i128(self.raw() * other.raw()),
        ensures
            r.raw() == fixed_mul(self.raw(), other.raw()),
    {
        let p = self.0 * other.0;
        FixedNumber(p / SCALE)
    }

    /// Fixed-point quotient: the raw dividend scaled up, divided, rounded toward zero.
    pub fn div(self, rhs: FixedNumber) -> (r: FixedNumber)
        requires
            rhs.raw() != 0,
            fits_i128(self.raw() * SCALE),
            fits_i128(fixed_div(self.raw(), rhs.raw())),
        ensures
            r.raw() == fixed_div(self.raw(), rhs.raw()),
    {
        let p = self.0 * SCALE;
        FixedNumber(div_toward_zero(p, rhs.0))
    }
}

/// The ordering of coordinates by (value, point, axis): a smaller value comes first;
/// among equal values the coordinate of the point with the larger index comes first;
/// on the same point the smaller axis comes first.
pub open spec fn coord_smaller(v1: int, p1: int, a1: int, v2: int, p2: int, a2: int) -> bool {
    if v1 != v2 {
        v1 < v2
    } else if p1 != p2 {
        p1 > p2
    } else {
        a1 < a2
    }
}

/// One coordinate of a point: its value and the axis it belongs to (0 for x, 1 for y).
#[derive(Clone, Copy)]
pub struct Coordinate {
    pub value: FixedNumber,
    pub index: usize,
}

impl Coordinate {
    /// The axis this coordinate belongs to.
    pub open spec fn axis(&self) -> usize {
        self.index
    }

    /// Whether `self`, a coordinate of point `self_point`, comes before `other`,
    /// a coordinate of point `other_point`.
    pub fn smaller(&self, self_point: usize, other: &Self, other_point: usize) -> (r: bool)
        ensures
            r == coord_smaller(
                self.value.raw(),
                self_point as int,
                self.axis() as int,
                other.value.raw(),
                other_point as int,
                other.axis() as int,
            ),
    {
        if self.value.0 != other.value.0 {
            self.value.0 < other.value.0
        } else if self_point != other_point {
            self_point > other_point
        } else {
            self.index < other.index
        }
    }
}

/// A point in the plane.
#[derive(Clone, Copy)]
pub struct Point {
    pub x: Coordinate,
    pub y: Coordinate,
}

impl Point {
    /// The raw x value.
    pub open spec fn sx(&self) -> int {
        self.x.value.raw()
    }

    /// The raw y value.
    pub open spec fn sy(&self) -> int {
        self.y.value.raw()
    }

    /// Whether the coordinates sit on their own axes.
    pub open spec fn axes_ok(&self) -> bool {
        self.x.axis() == 0 && self.y.axis() == 1
    }

    pub fn x(&self) -> (r: i128)
        ensures
            r == self.sx(),
    {
        self.x.value.0
    }

    pub fn y(&self) -> (r: i128)
        ensures
            r == self.sy(),
    {
        self.y.value.0
    }

    pub fn new(x: FixedNumber, y: FixedNumber) -> (p: Point)
        ensures
            p.x.value == x,
            p.y.value == y,
            p.axes_ok(),
    {
        Point { x: Coordinate { value: x, index: 0 }, y: Coordinate { value: y, index: 1 } }
    }

    /// A point from raw fixed-point values.
    pub fn from_i128(x: i128, y: i128) -> (p: Point)
        ensures
            p.sx() == x,
            p.sy() == y,
            p.axes_ok(),
    {
        Point {
            x: Coordinate { value: FixedNumber(x), index: 0 },
            y: Coordinate { value: FixedNumber(y), index: 1 },
        }
    }

    pub fn copy_point(&self) -> (p: Point)
        ensures
            p.sx() == self.sx(),
            p.sy() == self.sy(),
            p.x.axis() == self.x.axis(),
            p.y.axis() == self.y.axis(),
    {
        Point {
            x: Coordinate { value: self.x.value, index: self.x.index },
            y: Coordinate { value: self.y.value, index: self.y.index },
        }
    }
}

/// No coordinate comes before itself.
pub proof fn lemma_smaller_irreflexive(v: int, p: int, a: int)
    ensures
        !coord_smaller(v, p, a, v, p, a),
{
}

/// Two coordinates never come before each other.
pub proof fn lemma_smaller_asymmetric(v1: int, p1: int, a1: int, v2: int, p2: int, a2: int)
    ensures
        coord_smaller(v1, p1, a1, v2, p2, a2) ==> !coord_smaller(v2, p2, a2, v1, p1, a1),
{
}

/// Of two distinct coordinates, one comes before the other.
pub proof fn lemma_smaller_total(v1: int, p1: int, a1: int, v2: int, p2: int, a2: int)
    requires
        (v1, p1, a1) != (v2, p2, a2),
    ensures
        coord_smaller(v1, p1, a1, v2, p2, a2) || coord_smaller(v2, p2, a2, v1, p1, a1),
{
}

/// The ordering is transitive.
pub proof fn lemma_smaller_transitive(
    v1: int,
    p1: int,
    a1: int,
    v2: int,
    p2: int,
    a2: int,
    v3: int,
    p3: int,
    a3: int,
)
    requires
        coord_smaller(v1, p1, a1, v2, p2, a2),
        coord_smaller(v2, p2, a2, v3, p3, a3),
    ensures
        coord_smaller(v1, p1, a1, v3, p3, a3),
{
}

} // verus!
