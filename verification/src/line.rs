//! Infinite lines in implicit form.

use vstd::prelude::*;
use crate::error::GeometryError;
use crate::exact::{
    lemma_product_bound, lemma_square_nonnegative, Distance, Fraction, Measure, Ratio, Root,
    COORD_MAX, MEET_DEN_MAX, MEET_MAX, OFFSET_MAX, SPAN_MAX,
};
use crate::point::{HPoint, Point, RationalPoint};
use crate::vector::Direction;

verus! {

/// The line `A * x + B * y + C == 0` with the unit normal `(A, B)`, over the
/// mathematical integers: `A`, `B` and `C` are `a`, `b` and `c` divided by
/// the square root of `n`, where `n` is `a * a + b * b`. The three whole
/// numbers and `n` hold the unit form exactly; `unit_a`, `unit_b` and
/// `unit_c` read it.
pub struct LineEq {
    pub a: int,
    pub b: int,
    pub c: int,
    pub n: int,
}

impl LineEq {
    /// The normal is not the zero vector.
    pub open spec fn nondegenerate(self) -> bool {
        self.a != 0 || self.b != 0
    }

    /// `n` is the squared length of `(a, b)`, so that `(a, b)` over the
    /// square root of `n` has length one.
    pub open spec fn measured(self) -> bool {
        self.n == self.a * self.a + self.b * self.b
    }

    /// The first part of the unit normal: `a` over the square root of `n`.
    pub open spec fn unit_a(self) -> Root {
        Root::of(self.a, self.n)
    }

    /// The second part of the unit normal: `b` over the square root of `n`.
    pub open spec fn unit_b(self) -> Root {
        Root::of(self.b, self.n)
    }

    /// The constant term of the unit form: `c` over the square root of `n`.
    pub open spec fn unit_c(self) -> Root {
        Root::of(self.c, self.n)
    }

    /// The left side of the unit form at `p`: the distance from `p` to the
    /// line, with the sign of the side on which `p` lies.
    pub open spec fn signed_distance(self, p: Point) -> Root {
        Root::of(self.eval(p@), self.n)
    }

    /// The left side of the unit form at `h`, scaled by `h.w` and by the
    /// square root of `n`. Its sign tells the side of the line on which `h`
    /// lies.
    pub open spec fn eval(self, h: HPoint) -> int {
        self.a * h.x + self.b * h.y + self.c * h.w
    }

    /// The point lies on the line.
    pub open spec fn contains(self, h: HPoint) -> bool {
        self.eval(h) == 0
    }

    /// The line that passes through `p` and then `q`: its unit normal is the
    /// direction from `p` to `q`, brought to length one and turned by a
    /// quarter, and its constant term lets it pass through `p`.
    pub open spec fn through(p: Point, q: Point) -> LineEq {
        LineEq {
            a: q.y - p.y,
            b: p.x - q.x,
            c: (q.x - p.x) * p.y - (q.y - p.y) * p.x,
            n: p.spec_distance_squared(q),
        }
    }

    /// The line that passes through `p` with the slope `s`: its unit normal
    /// is the direction `(s.den, s.num)`, brought to length one and turned by
    /// a quarter.
    pub open spec fn with_slope(p: Point, s: Fraction) -> LineEq {
        LineEq {
            a: s.num,
            b: -s.den,
            c: s.den * p.y - s.num * p.x,
            n: s.num * s.num + s.den * s.den,
        }
    }

    /// The line's rise over its run.
    pub open spec fn slope(self) -> Fraction {
        Ratio::spec_of(-self.a, self.b)
    }

    /// The `y` at which the line passes `x`.
    pub open spec fn y_at(self, x: int) -> Fraction {
        Ratio::spec_of(-(self.a * x + self.c), self.b)
    }

    /// The `x` at which the line passes `y`.
    pub open spec fn x_at(self, y: int) -> Fraction {
        Ratio::spec_of(-(self.b * y + self.c), self.a)
    }

    /// The determinant of the two normals. It is zero exactly when the lines
    /// are parallel or identical.
    pub open spec fn det(self, other: LineEq) -> int {
        self.a * other.b - other.a * self.b
    }

    /// The two lines are parallel or identical.
    pub open spec fn parallel(self, other: LineEq) -> bool {
        self.det(other) == 0
    }

    /// The point in which the two lines cross, by Cramer's rule, with a
    /// positive denominator. Defined where the lines are not parallel.
    pub open spec fn meet(self, other: LineEq) -> HPoint {
        let w: int = self.det(other);
        let x: int = self.b * other.c - other.b * self.c;
        let y: int = other.a * self.c - self.a * other.c;
        if w > 0 {
            HPoint { x, y, w }
        } else {
            HPoint { x: -x, y: -y, w: -w }
        }
    }

    /// The line through `p` that stands at a right angle on this one: its
    /// unit normal is this line's, turned by a quarter.
    pub open spec fn perpendicular_through(self, p: Point) -> LineEq {
        LineEq { a: -self.b, b: self.a, c: self.b * p.x - self.a * p.y, n: self.n }
    }

    /// The square of the distance from `p` to the line: the square of
    /// `signed_distance`.
    pub open spec fn distance_squared(self, p: Point) -> Fraction {
        Fraction { num: self.eval(p@) * self.eval(p@), den: self.n }
    }

    /// Above a line that is not vertical lies the side to which its normal
    /// points if `b` is positive, and the other side if `b` is negative.
    pub proof fn lemma_above_is_a_side(self, p: Point)
        requires
            self.b != 0,
        ensures
            ({
                let at: Fraction = self.y_at(p.x as int);
                p.y * at.den > at.num
            }) == (if self.b > 0 {
                self.eval(p@) > 0
            } else {
                self.eval(p@) < 0
            }),
    {
        let py: int = p.y as int;
        let b: int = self.b;
        assert(py * b == b * py) by (nonlinear_arith);
        assert(py * (-b) == -(b * py)) by (nonlinear_arith);
    }

    /// The crossing point that Cramer's rule gives lies on both lines.
    pub proof fn lemma_meet_on_both(self, other: LineEq)
        ensures
            self.contains(self.meet(other)),
            other.contains(self.meet(other)),
    {
        let a: int = self.a;
        let b: int = self.b;
        let c: int = self.c;
        let p: int = other.a;
        let q: int = other.b;
        let r: int = other.c;
        let x: int = b * r - q * c;
        let y: int = p * c - a * r;
        let w: int = a * q - p * b;
        assert(a * (b * r - q * c) == a * (b * r) - a * (q * c)) by (nonlinear_arith);
        assert(b * (p * c - a * r) == b * (p * c) - a * (b * r)) by (nonlinear_arith);
        assert(c * (a * q - p * b) == a * (q * c) - b * (p * c)) by (nonlinear_arith);
        assert(p * (b * r - q * c) == p * (b * r) - q * (p * c)) by (nonlinear_arith);
        assert(q * (p * c - a * r) == q * (p * c) - r * (a * q)) by (nonlinear_arith);
        assert(r * (a * q - p * b) == r * (a * q) - p * (b * r)) by (nonlinear_arith);
        assert(a * x + b * y + c * w == 0);
        assert(p * x + q * y + r * w == 0);
        assert(a * (-x) == -(a * x)) by (nonlinear_arith);
        assert(b * (-y) == -(b * y)) by (nonlinear_arith);
        assert(c * (-w) == -(c * w)) by (nonlinear_arith);
        assert(p * (-x) == -(p * x)) by (nonlinear_arith);
        assert(q * (-y) == -(q * y)) by (nonlinear_arith);
        assert(r * (-w) == -(r * w)) by (nonlinear_arith);
    }
}

/// A line in implicit form with a unit normal: the coefficients are `a`, `b`
/// and `c`, each divided by the square root of `n`, which is `a * a + b * b`.
#[derive(Clone, Copy, Debug, PartialEq, Eq, Structural)]
pub struct Line {
    pub a: i64,
    pub b: i64,
    pub c: i64,
    pub n: u64,
}

impl View for Line {
    type V = LineEq;

    open spec fn view(&self) -> LineEq {
        LineEq { a: self.a as int, b: self.b as int, c: self.c as int, n: self.n as int }
    }
}

impl Line {
    /// The normal is not zero, `n` is its squared length, and the whole
    /// numbers are no larger than those of a line through two grid points in
    /// range.
    pub open spec fn wf(self) -> bool {
        &&& self@.nondegenerate()
        &&& self@.measured()
        &&& -SPAN_MAX <= self.a <= SPAN_MAX
        &&& -SPAN_MAX <= self.b <= SPAN_MAX
        &&& -OFFSET_MAX <= self.c <= OFFSET_MAX
    }

    /// Whether the line is one that the geometry accepts.
    pub fn in_range(&self) -> (r: bool)
        ensures
            r == self.wf(),
    {
        if (self.a != 0 || self.b != 0) && -SPAN_MAX <= self.a && self.a <= SPAN_MAX && -SPAN_MAX
            <= self.b && self.b <= SPAN_MAX && -OFFSET_MAX <= self.c && self.c <= OFFSET_MAX {
            proof {
                lemma_product_bound(self.a as int, self.a as int, SPAN_MAX as int, SPAN_MAX as int);
                lemma_product_bound(self.b as int, self.b as int, SPAN_MAX as int, SPAN_MAX as int);
            }
            let n: i128 = (self.a as i128) * (self.a as i128) + (self.b as i128) * (self.b as i128);
            n == self.n as i128
        } else {
            false
        }
    }

    /// The unit normal.
    pub fn normal(&self) -> (d: Direction)
        requires
            self.wf(),
        ensures
            d.wf(),
            d.x == self.a,
            d.y == self.b,
            d.norm_squared == self.n,
    {
        proof {
            crate::algebra::lemma_norm_zero(self.a as int, self.b as int);
        }
        Direction { x: self.a, y: self.b, norm_squared: self.n }
    }

    /// The first part of the unit normal.
    pub fn unit_a(&self) -> (r: Measure)
        requires
            self.wf(),
        ensures
            r.size.wf(),
            r@ == self@.unit_a(),
    {
        proof {
            crate::algebra::lemma_norm_zero(self.a as int, self.b as int);
        }
        Measure::of(self.a as i128, self.n)
    }

    /// The second part of the unit normal.
    pub fn unit_b(&self) -> (r: Measure)
        requires
            self.wf(),
        ensures
            r.size.wf(),
            r@ == self@.unit_b(),
    {
        proof {
            crate::algebra::lemma_norm_zero(self.a as int, self.b as int);
        }
        Measure::of(self.b as i128, self.n)
    }

    /// The constant term of the unit form.
    pub fn unit_c(&self) -> (r: Measure)
        requires
            self.wf(),
        ensures
            r.size.wf(),
            r@ == self@.unit_c(),
    {
        proof {
            crate::algebra::lemma_norm_zero(self.a as int, self.b as int);
        }
        Measure::of(self.c as i128, self.n)
    }

    /// The distance from `p` to the line, with the sign of the side on which
    /// `p` lies: the left side of the unit form at `p`.
    pub fn signed_distance(&self, p: Point) -> (r: Measure)
        requires
            self.wf(),
            p.wf(),
        ensures
            r.size.wf(),
            r@ == self@.signed_distance(p),
            r@.square == self@.distance_squared(p),
    {
        let side: i128 = self.evaluate(p);
        proof {
            crate::algebra::lemma_norm_zero(self.a as int, self.b as int);
            lemma_product_bound(self.a as int, p.x as int, SPAN_MAX as int, COORD_MAX as int);
            lemma_product_bound(self.b as int, p.y as int, SPAN_MAX as int, COORD_MAX as int);
        }
        Measure::of(side, self.n)
    }

    /// The line through `p1` and `p2`, which must differ.
    pub fn from_point_point(p1: Point, p2: Point) -> (r: Result<Line, GeometryError>)
        requires
            p1.wf(),
            p2.wf(),
        ensures
            p1 == p2 <==> r is Err,
            r matches Err(e) ==> e == GeometryError::DegenerateInput,
            r matches Ok(l) ==> l.wf() && l@ == LineEq::through(p1, p2) && l.n
                == p1.spec_distance_squared(p2),
    {
        if p1.x == p2.x && p1.y == p2.y {
            Err(GeometryError::DegenerateInput)
        } else {
            Ok(Line::through(p1, p2))
        }
    }

    /// The line through two points that are known to differ.
    pub fn through(p1: Point, p2: Point) -> (l: Line)
        requires
            p1.wf(),
            p2.wf(),
            p1 != p2,
        ensures
            l.wf(),
            l@ == LineEq::through(p1, p2),
            l.n == p1.spec_distance_squared(p2),
    {
        let dx: i64 = p2.x - p1.x;
        let dy: i64 = p2.y - p1.y;
        proof {
            lemma_product_bound(dx as int, p1.y as int, SPAN_MAX as int, COORD_MAX as int);
            lemma_product_bound(dy as int, p1.x as int, SPAN_MAX as int, COORD_MAX as int);
            lemma_product_bound(dx as int, dx as int, SPAN_MAX as int, SPAN_MAX as int);
            lemma_product_bound(dy as int, dy as int, SPAN_MAX as int, SPAN_MAX as int);
            assert((-dx) * (-dx) == dx * dx) by (nonlinear_arith);
            assert((-dy) * (-dy) == dy * dy) by (nonlinear_arith);
            assert(p1.x - p2.x == -dx && p1.y - p2.y == -dy);
        }
        let n: u128 = p1.distance_squared(p2);
        Line { a: dy, b: -dx, c: dx * p1.y - dy * p1.x, n: n as u64 }
    }

    /// The line through `p` with the slope `s`.
    pub fn from_point_slope(p: Point, s: Ratio) -> (l: Line)
        requires
            p.wf(),
            s.wf(),
            -SPAN_MAX <= s.num <= SPAN_MAX,
            s.den <= SPAN_MAX,
        ensures
            l.wf(),
            l@ == LineEq::with_slope(p, s@),
    {
        let rise: i64 = s.num as i64;
        let run: i64 = s.den as i64;
        proof {
            lemma_product_bound(run as int, p.y as int, SPAN_MAX as int, COORD_MAX as int);
            lemma_product_bound(rise as int, p.x as int, SPAN_MAX as int, COORD_MAX as int);
            lemma_product_bound(run as int, run as int, SPAN_MAX as int, SPAN_MAX as int);
            lemma_product_bound(rise as int, rise as int, SPAN_MAX as int, SPAN_MAX as int);
            lemma_square_nonnegative(run as int);
            lemma_square_nonnegative(rise as int);
            assert((-run) * (-run) == run * run) by (nonlinear_arith);
        }
        let n: i128 = (rise as i128) * (rise as i128) + (run as i128) * (run as i128);
        Line { a: rise, b: -run, c: run * p.y - rise * p.x, n: n as u64 }
    }

    /// The line's rise over its run; a vertical line has none.
    pub fn slope(&self) -> (r: Option<Ratio>)
        ensures
            self.b == 0 <==> r is None,
            r matches Some(s) ==> s.wf() && s@ == self@.slope(),
    {
        if self.b == 0 {
            None
        } else {
            Some(Ratio::of(-(self.a as i128), self.b as i128))
        }
    }

    /// The `y` at which the line passes `x`; a vertical line passes each `x`
    /// at no `y` or at all of them.
    pub fn y(&self, x: i64) -> (r: Option<Ratio>)
        requires
            self.wf(),
        ensures
            self.b == 0 <==> r is None,
            r matches Some(v) ==> v.wf() && v@ == self@.y_at(x as int),
    {
        if self.b == 0 {
            None
        } else {
            proof {
                lemma_product_bound(self.a as int, x as int, SPAN_MAX as int, 0x8000_0000_0000_0000);
            }
            let n: i128 = (self.a as i128) * (x as i128) + (self.c as i128);
            Some(Ratio::of(-n, self.b as i128))
        }
    }

    /// The `x` at which the line passes `y`; a horizontal line passes each
    /// `y` at no `x` or at all of them.
    pub fn x(&self, y: i64) -> (r: Option<Ratio>)
        requires
            self.wf(),
        ensures
            self.a == 0 <==> r is None,
            r matches Some(v) ==> v.wf() && v@ == self@.x_at(y as int),
    {
        if self.a == 0 {
            None
        } else {
            proof {
                lemma_product_bound(self.b as int, y as int, SPAN_MAX as int, 0x8000_0000_0000_0000);
            }
            let n: i128 = (self.b as i128) * (y as i128) + (self.c as i128);
            Some(Ratio::of(-n, self.a as i128))
        }
    }

    /// The left side of the unit form at `p`, scaled by the square root of
    /// `n`: the signed distance from `p` to the line is the result over that
    /// root.
    pub fn evaluate(&self, p: Point) -> (r: i128)
        requires
            self.wf(),
        ensures
            r == self@.eval(p@),
            Root::of(r as int, self.n as int) == self@.signed_distance(p),
    {
        proof {
            lemma_product_bound(self.a as int, p.x as int, SPAN_MAX as int, 0x8000_0000_0000_0000);
            lemma_product_bound(self.b as int, p.y as int, SPAN_MAX as int, 0x8000_0000_0000_0000);
        }
        (self.a as i128) * (p.x as i128) + (self.b as i128) * (p.y as i128) + (self.c as i128)
    }

    /// The left side of the unit form at `p`, scaled by `p.w` and by the
    /// square root of `n`.
    pub fn evaluate_rational(&self, p: &RationalPoint) -> (r: i128)
        requires
            self.wf(),
            p.wf(),
        ensures
            r == self@.eval(p@),
    {
        proof {
            lemma_product_bound(self.a as int, p.x as int, SPAN_MAX as int, MEET_MAX as int);
            lemma_product_bound(self.b as int, p.y as int, SPAN_MAX as int, MEET_MAX as int);
            lemma_product_bound(self.c as int, p.w as int, OFFSET_MAX as int, MEET_DEN_MAX as int);
        }
        (self.a as i128) * p.x + (self.b as i128) * p.y + (self.c as i128) * p.w
    }

    /// The point in which the two lines cross, by Cramer's rule. Parallel and
    /// identical lines cross in no single point: the error names both.
    pub fn intersection(&self, other: Line) -> (r: Result<RationalPoint, GeometryError>)
        requires
            self.wf(),
            other.wf(),
        ensures
            self@.parallel(other@) <==> r is Err,
            r matches Err(e) ==> e == (GeometryError::UndefinedIntersection {
                first: *self,
                second: other,
            }),
            r matches Ok(x) ==> x.wf() && x@ == self@.meet(other@),
    {
        proof {
            lemma_product_bound(self.a as int, other.b as int, SPAN_MAX as int, SPAN_MAX as int);
            lemma_product_bound(other.a as int, self.b as int, SPAN_MAX as int, SPAN_MAX as int);
            lemma_product_bound(self.b as int, other.c as int, SPAN_MAX as int, OFFSET_MAX as int);
            lemma_product_bound(other.b as int, self.c as int, SPAN_MAX as int, OFFSET_MAX as int);
            lemma_product_bound(other.a as int, self.c as int, SPAN_MAX as int, OFFSET_MAX as int);
            lemma_product_bound(self.a as int, other.c as int, SPAN_MAX as int, OFFSET_MAX as int);
        }
        let w: i128 = (self.a as i128) * (other.b as i128) - (other.a as i128) * (self.b as i128);
        if w == 0 {
            return Err(GeometryError::UndefinedIntersection { first: *self, second: other });
        }
        let x: i128 = (self.b as i128) * (other.c as i128) - (other.b as i128) * (self.c as i128);
        let y: i128 = (other.a as i128) * (self.c as i128) - (self.a as i128) * (other.c as i128);
        if w > 0 {
            Ok(RationalPoint { x, y, w })
        } else {
            Ok(RationalPoint { x: -x, y: -y, w: -w })
        }
    }

    /// The line through `p` that stands at a right angle on this one.
    pub fn perpendicular_through(&self, p: Point) -> (l: Line)
        requires
            self.wf(),
            p.wf(),
        ensures
            l.wf(),
            l@ == self@.perpendicular_through(p),
    {
        proof {
            lemma_product_bound(self.b as int, p.x as int, SPAN_MAX as int, COORD_MAX as int);
            lemma_product_bound(self.a as int, p.y as int, SPAN_MAX as int, COORD_MAX as int);
            let b: int = self.b as int;
            assert((-b) * (-b) == b * b) by (nonlinear_arith);
        }
        Line { a: -self.b, b: self.a, c: self.b * p.x - self.a * p.y, n: self.n }
    }

    /// The distance from `p` to the nearest point of the line. It is zero
    /// exactly when `p` lies on the line.
    pub fn distance_to_point(&self, p: Point) -> (r: Distance)
        requires
            self.wf(),
            p.wf(),
        ensures
            r.wf(),
            r@ == self@.distance_squared(p),
            r@.num == 0 <==> self@.contains(p@),
    {
        let side: i128 = self.evaluate(p);
        proof {
            assert(side * side == 0 <==> side == 0) by (nonlinear_arith);
            lemma_product_bound(self.a as int, p.x as int, SPAN_MAX as int, COORD_MAX as int);
            lemma_product_bound(self.b as int, p.y as int, SPAN_MAX as int, COORD_MAX as int);
            lemma_product_bound(side as int, side as int, 0x8000_0000_0000_0000, 0x8000_0000_0000_0000);
            lemma_square_nonnegative(side as int);
            lemma_product_bound(self.a as int, self.a as int, SPAN_MAX as int, SPAN_MAX as int);
            lemma_product_bound(self.b as int, self.b as int, SPAN_MAX as int, SPAN_MAX as int);
            crate::algebra::lemma_norm_zero(self.a as int, self.b as int);
        }
        let num: u128 = (side * side) as u128;
        Distance { num, den: self.n as u128 }
    }
}

} // verus!
