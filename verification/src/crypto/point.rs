use vstd::prelude::*;

verus! {

/// Why a point was refused.
#[derive(Debug, Clone, Copy, PartialEq, Eq, Structural)]
pub enum CurveError {
    /// The coordinates do not satisfy the curve equation.
    NotOnCurve,
}

/// The mathematical value of a point: its coordinates and the parameters of
/// the curve `y^2 = x^3 + a*x + b` that it lies on.
pub struct Coordinates {
    pub x: int,
    pub y: int,
    pub a: int,
    pub b: int,
}

impl Coordinates {
    /// The coordinates satisfy the curve equation over the integers.
    pub open spec fn on_curve(self) -> bool {
        self.y * self.y == self.x * self.x * self.x + self.a * self.x + self.b
    }
}

/// A point of the curve `y^2 = x^3 + a*x + b` over the integers.
#[derive(Debug, Clone, Copy)]
pub struct Point {
    x: i32,
    y: i32,
    a: i32,
    b: i32,
}

impl View for Point {
    type V = Coordinates;

    closed spec fn view(&self) -> Coordinates {
        Coordinates { x: self.x as int, y: self.y as int, a: self.a as int, b: self.b as int }
    }
}

impl PartialEq for Point {
    /// Two points are equal when they have the same coordinates on the same
    /// curve.
    fn eq(&self, other: &Point) -> (r: bool) {
        self.a == other.a && self.b == other.b && self.x == other.x && self.y == other.y
    }
}

impl Eq for Point {

}

impl vstd::std_specs::cmp::PartialEqSpecImpl for Point {
    open spec fn obeys_eq_spec() -> bool {
        true
    }

    open spec fn eq_spec(&self, other: &Point) -> bool {
        self@ == other@
    }
}

impl Point {
    #[verifier::type_invariant]
    spec fn satisfies_equation(self) -> bool {
        self@.on_curve()
    }

    /// Builds the point `(x, y)` of the curve with parameters `a` and `b`.
    ///
    /// Fails with [`CurveError::NotOnCurve`] exactly when
    /// `y^2 != x^3 + a*x + b`. The equation is evaluated in 128 bits, so it is
    /// exact for every input.
    pub fn new(x: i32, y: i32, a: i32, b: i32) -> (res: Result<Point, CurveError>)
        ensures
            (Coordinates { x: x as int, y: y as int, a: a as int, b: b as int }).on_curve()
                ==> res is Ok && res->Ok_0@ == (Coordinates {
                x: x as int,
                y: y as int,
                a: a as int,
                b: b as int,
            }),
            !(Coordinates { x: x as int, y: y as int, a: a as int, b: b as int }).on_curve()
                ==> res == Err::<Point, CurveError>(CurveError::NotOnCurve),
    {
        if square(y) != cubic(x, a, b) {
            return Err(CurveError::NotOnCurve);
        }
        Ok(Point { x, y, a, b })
    }

    /// The first coordinate.
    pub fn x(&self) -> (v: i32)
        ensures
            v == self@.x,
            self@.on_curve(),
    {
        proof {
            use_type_invariant(self);
        }
        self.x
    }

    /// The second coordinate.
    pub fn y(&self) -> (v: i32)
        ensures
            v == self@.y,
            self@.on_curve(),
    {
        proof {
            use_type_invariant(self);
        }
        self.y
    }

    /// The coefficient of `x` in the curve equation.
    pub fn a(&self) -> (v: i32)
        ensures
            v == self@.a,
            self@.on_curve(),
    {
        proof {
            use_type_invariant(self);
        }
        self.a
    }

    /// The constant term of the curve equation.
    pub fn b(&self) -> (v: i32)
        ensures
            v == self@.b,
            self@.on_curve(),
    {
        proof {
            use_type_invariant(self);
        }
        self.b
    }
}

/// `y^2`, exactly.
fn square(y: i32) -> (r: i128)
    ensures
        r == y * y,
{
    let y: i128 = y as i128;
    assert(0 <= y * y <= 0x4000_0000_0000_0000) by (nonlinear_arith)
        requires
            -0x8000_0000 <= y <= 0x7fff_ffff,
    ;
    y * y
}

/// `x^3 + a*x + b`, exactly.
fn cubic(x: i32, a: i32, b: i32) -> (r: i128)
    ensures
        r == x * x * x + a * x + b,
{
    let x: i128 = x as i128;
    let a: i128 = a as i128;
    assert(0 <= x * x <= 0x4000_0000_0000_0000) by (nonlinear_arith)
        requires
            -0x8000_0000 <= x <= 0x7fff_ffff,
    ;
    let x2: i128 = x * x;
    assert(-0x2000_0000_0000_0000_0000_0000 <= x2 * x <= 0x2000_0000_0000_0000_0000_0000)
        by (nonlinear_arith)
        requires
            -0x8000_0000 <= x <= 0x7fff_ffff,
            0 <= x2 <= 0x4000_0000_0000_0000,
    ;
    assert(-0x4000_0000_0000_0000 <= a * x <= 0x4000_0000_0000_0000) by (nonlinear_arith)
        requires
            -0x8000_0000 <= a <= 0x7fff_ffff,
            -0x8000_0000 <= x <= 0x7fff_ffff,
    ;
    x2 * x + a * x + b as i128
}

} // verus!
