//! Exact numbers: fractions of integers, and lengths held by their squares.
//!
//! Every coordinate is a whole number of grid units, so every quantity the
//! geometry derives from coordinates is a fraction of integers, and the square
//! of every length is one too. Nothing is rounded anywhere in this crate.

use vstd::prelude::*;

verus! {

/// Largest absolute value of a point's coordinate.
pub const COORD_MAX: i64 = 0x4000_0000;

/// Largest absolute value of a difference of two coordinates.
pub const SPAN_MAX: i64 = 0x8000_0000;

/// Largest absolute value of a line's constant term.
pub const OFFSET_MAX: i64 = 0x4000_0000_0000_0000;

/// Largest absolute value of a numerator of a rational point.
pub const MEET_MAX: i128 = 0x4000_0000_0000_0000_0000_0000;

/// Largest denominator of a rational point.
pub const MEET_DEN_MAX: i128 = 0x8000_0000_0000_0000;

/// `num / den` over the mathematical integers.
pub struct Fraction {
    pub num: int,
    pub den: int,
}

impl Fraction {
    /// The two fractions denote the same rational number.
    pub open spec fn same(self, other: Fraction) -> bool {
        self.num * other.den == other.num * self.den
    }

    /// The first fraction is no larger than the second. Both denominators are
    /// positive.
    pub open spec fn at_most(self, other: Fraction) -> bool {
        self.num * other.den <= other.num * self.den
    }

    /// The first fraction is smaller than the second. Both denominators are
    /// positive.
    pub open spec fn less_than(self, other: Fraction) -> bool {
        self.num * other.den < other.num * self.den
    }

    /// Read as the square of a length, the fraction is below the square of
    /// `reach`: the length itself is below `reach`.
    pub open spec fn shorter_than(self, reach: int) -> bool {
        self.num < reach * reach * self.den
    }
}

/// The number `sign * sqrt(square)`: a whole number divided by a square
/// root, held by its sign and its square.
pub struct Root {
    pub sign: int,
    pub square: Fraction,
}

impl Root {
    /// The number `v / sqrt(n)`, for a positive `n`.
    pub open spec fn of(v: int, n: int) -> Root {
        Root {
            sign: if v > 0 {
                1
            } else if v < 0 {
                -1
            } else {
                0
            },
            square: Fraction { num: v * v, den: n },
        }
    }

    /// The number is the whole number `k`.
    pub open spec fn is_whole(self, k: int) -> bool {
        &&& self.sign == Root::of(k, 1).sign
        &&& self.square.num == k * k * self.square.den
    }
}

/// The product of two bounded integers is bounded by the product of the bounds.
pub proof fn lemma_product_bound(x: int, y: int, bx: int, by: int)
    by (nonlinear_arith)
    requires
        -bx <= x <= bx,
        -by <= y <= by,
    ensures
        -(bx * by) <= x * y <= bx * by,
{
}

/// A square is never negative.
pub proof fn lemma_square_nonnegative(x: int)
    by (nonlinear_arith)
    ensures
        x * x >= 0,
{
}

/// A signed fraction with a positive denominator: a slope, or a coordinate
/// read off a line.
#[derive(Clone, Copy, Debug, PartialEq, Eq, Structural)]
pub struct Ratio {
    pub num: i128,
    pub den: i128,
}

impl View for Ratio {
    type V = Fraction;

    open spec fn view(&self) -> Fraction {
        Fraction { num: self.num as int, den: self.den as int }
    }
}

impl Ratio {
    /// The denominator is positive.
    pub open spec fn wf(self) -> bool {
        self.den > 0
    }

    /// The fraction `num / den`, brought to a positive denominator.
    pub open spec fn spec_of(num: int, den: int) -> Fraction {
        if den > 0 {
            Fraction { num, den }
        } else {
            Fraction { num: -num, den: -den }
        }
    }

    /// The slope at a right angle to the slope `f`: `-1 / f`.
    pub open spec fn spec_inverse(f: Fraction) -> Fraction {
        Self::spec_of(-f.den, f.num)
    }

    /// The slope at a right angle to this one: `-1` divided by the ratio.
    /// Zero has none.
    pub fn inverse(&self) -> (r: Option<Ratio>)
        requires
            self.wf(),
            self.num > i128::MIN,
        ensures
            self.num == 0 <==> r is None,
            r matches Some(v) ==> v.wf() && v@ == Self::spec_inverse(self@),
    {
        if self.num == 0 {
            None
        } else {
            Some(Ratio::of(-self.den, self.num))
        }
    }

    /// The ratio `num / den` with its sign carried by the numerator.
    pub fn of(num: i128, den: i128) -> (r: Ratio)
        requires
            den != 0,
            num > i128::MIN,
            den > i128::MIN,
        ensures
            r.wf(),
            r@ == Self::spec_of(num as int, den as int),
    {
        if den > 0 {
            Ratio { num, den }
        } else {
            Ratio { num: -num, den: -den }
        }
    }
}

/// A signed length: a coefficient of a unit vector, or the distance of a
/// point from a line with the side on which the point lies. It is held by its
/// sign, `-1`, `0` or `1`, and by its size.
#[derive(Clone, Copy, Debug, PartialEq, Eq, Structural)]
pub struct Measure {
    pub sign: i8,
    pub size: Distance,
}

impl View for Measure {
    type V = Root;

    open spec fn view(&self) -> Root {
        Root { sign: self.sign as int, square: self.size@ }
    }
}

impl Measure {
    /// The number `v / sqrt(n)`.
    pub fn of(v: i128, n: u64) -> (r: Measure)
        requires
            -0x8000_0000_0000_0000 <= v <= 0x8000_0000_0000_0000,
            n > 0,
        ensures
            r.size.wf(),
            r@ == Root::of(v as int, n as int),
    {
        proof {
            lemma_product_bound(v as int, v as int, 0x8000_0000_0000_0000, 0x8000_0000_0000_0000);
            lemma_square_nonnegative(v as int);
        }
        let sign: i8 = if v > 0 {
            1
        } else if v < 0 {
            -1
        } else {
            0
        };
        Measure { sign, size: Distance { num: (v * v) as u128, den: n as u128 } }
    }

    /// Whether the number is the whole number `k`.
    pub fn is_whole(&self, k: i32) -> (r: bool)
        requires
            self.size.wf(),
        ensures
            r == self@.is_whole(k as int),
    {
        let sign: i8 = if k > 0 {
            1
        } else if k < 0 {
            -1
        } else {
            0
        };
        proof {
            lemma_product_bound(k as int, k as int, 0x8000_0000, 0x8000_0000);
            lemma_square_nonnegative(k as int);
        }
        let square: u128 = ((k as i128) * (k as i128)) as u128;
        match square.checked_mul(self.size.den) {
            Some(bound) => self.sign == sign && self.size.num == bound,
            None => false,
        }
    }
}

/// A length, held exactly as the fraction `num / den` that is its square.
#[derive(Clone, Copy, Debug, PartialEq, Eq, Structural)]
pub struct Distance {
    pub num: u128,
    pub den: u128,
}

impl View for Distance {
    type V = Fraction;

    open spec fn view(&self) -> Fraction {
        Fraction { num: self.num as int, den: self.den as int }
    }
}

impl Distance {
    /// The denominator is positive.
    pub open spec fn wf(self) -> bool {
        self.den > 0
    }

    /// The length zero.
    pub fn zero() -> (r: Distance)
        ensures
            r.wf(),
            r@ == (Fraction { num: 0, den: 1 }),
    {
        Distance { num: 0, den: 1 }
    }

    /// The length whose square is the whole number `squared`.
    pub fn from_square(squared: u128) -> (r: Distance)
        ensures
            r.wf(),
            r@ == (Fraction { num: squared as int, den: 1 }),
    {
        Distance { num: squared, den: 1 }
    }

    /// Whether the length is zero.
    pub fn is_zero(&self) -> (r: bool)
        ensures
            r == (self@.num == 0),
    {
        self.num == 0
    }

    /// Whether the length is strictly below `reach`.
    pub fn shorter_than(&self, reach: u64) -> (r: bool)
        requires
            self.wf(),
        ensures
            r == self@.shorter_than(reach as int),
    {
        let reach_wide: u128 = reach as u128;
        proof {
            lemma_product_bound(reach as int, reach as int, 0xffff_ffff_ffff_ffff, 0xffff_ffff_ffff_ffff);
        }
        let square: u128 = reach_wide * reach_wide;
        match square.checked_mul(self.den) {
            Some(bound) => self.num < bound,
            None => true,
        }
    }
}

} // verus!
