//! Displacements between grid points.

use vstd::prelude::*;
use crate::algebra::lemma_norm_zero;
use crate::error::GeometryError;
use crate::exact::{
    lemma_product_bound, lemma_square_nonnegative, Distance, Fraction, Measure, Ratio, Root,
    SPAN_MAX,
};

verus! {

/// A displacement of `x` grid units across and `y` grid units up.
#[derive(Clone, Copy, Debug, PartialEq, Eq, Structural)]
pub struct Vector {
    pub x: i64,
    pub y: i64,
}

/// A vector of length one: `(x, y)` divided by the square root of
/// `norm_squared`, which is `x * x + y * y`.
#[derive(Clone, Copy, Debug, PartialEq, Eq, Structural)]
pub struct Direction {
    pub x: i64,
    pub y: i64,
    pub norm_squared: u64,
}

impl Direction {
    /// `norm_squared` is the squared length of `(x, y)`, and is not zero;
    /// the components are differences of two coordinates in range.
    pub open spec fn wf(self) -> bool {
        &&& -SPAN_MAX <= self.x <= SPAN_MAX
        &&& -SPAN_MAX <= self.y <= SPAN_MAX
        &&& self.norm_squared == self.x * self.x + self.y * self.y
        &&& self.norm_squared > 0
    }

    /// The first component: `x` over the square root of `norm_squared`.
    pub open spec fn spec_unit_x(self) -> Root {
        Root::of(self.x as int, self.norm_squared as int)
    }

    /// The second component: `y` over the square root of `norm_squared`.
    pub open spec fn spec_unit_y(self) -> Root {
        Root::of(self.y as int, self.norm_squared as int)
    }

    /// Whether the direction is one that the geometry accepts.
    pub fn in_range(&self) -> (r: bool)
        ensures
            r == self.wf(),
    {
        if self.norm_squared == 0 {
            return false;
        }
        if self.x < -SPAN_MAX || self.x > SPAN_MAX || self.y < -SPAN_MAX || self.y > SPAN_MAX {
            return false;
        }
        proof {
            lemma_product_bound(self.x as int, self.x as int, SPAN_MAX as int, SPAN_MAX as int);
            lemma_product_bound(self.y as int, self.y as int, SPAN_MAX as int, SPAN_MAX as int);
        }
        let n: i128 = (self.x as i128) * (self.x as i128) + (self.y as i128) * (self.y as i128);
        n == self.norm_squared as i128
    }

    /// The first component of the vector of length one.
    pub fn unit_x(&self) -> (r: Measure)
        requires
            self.wf(),
        ensures
            r.size.wf(),
            r@ == self.spec_unit_x(),
    {
        Measure::of(self.x as i128, self.norm_squared)
    }

    /// The second component of the vector of length one.
    pub fn unit_y(&self) -> (r: Measure)
        requires
            self.wf(),
        ensures
            r.size.wf(),
            r@ == self.spec_unit_y(),
    {
        Measure::of(self.y as i128, self.norm_squared)
    }
}

impl Vector {
    /// The components are differences of two coordinates in range.
    pub open spec fn wf(self) -> bool {
        &&& -SPAN_MAX <= self.x <= SPAN_MAX
        &&& -SPAN_MAX <= self.y <= SPAN_MAX
    }

    /// The square of the vector's length.
    pub open spec fn spec_magnitude_squared(self) -> int {
        self.x * self.x + self.y * self.y
    }

    /// The vector's rise over its run.
    pub open spec fn spec_slope(self) -> Fraction {
        Ratio::spec_of(self.y as int, self.x as int)
    }

    /// Whether the vector is one that the geometry accepts.
    pub fn in_range(&self) -> (r: bool)
        ensures
            r == self.wf(),
    {
        -SPAN_MAX <= self.x && self.x <= SPAN_MAX && -SPAN_MAX <= self.y && self.y <= SPAN_MAX
    }

    /// The square of the vector's length.
    pub fn magnitude_squared(&self) -> (r: u128)
        requires
            self.wf(),
        ensures
            r == self.spec_magnitude_squared(),
    {
        proof {
            lemma_product_bound(self.x as int, self.x as int, SPAN_MAX as int, SPAN_MAX as int);
            lemma_product_bound(self.y as int, self.y as int, SPAN_MAX as int, SPAN_MAX as int);
            lemma_square_nonnegative(self.x as int);
            lemma_square_nonnegative(self.y as int);
        }
        let xx: i128 = (self.x as i128) * (self.x as i128);
        let yy: i128 = (self.y as i128) * (self.y as i128);
        (xx + yy) as u128
    }

    /// The vector's length.
    pub fn magnitude(&self) -> (r: Distance)
        requires
            self.wf(),
        ensures
            r.wf(),
            r@ == (Fraction { num: self.spec_magnitude_squared(), den: 1 }),
    {
        Distance::from_square(self.magnitude_squared())
    }

    /// The vector stretched by the whole factor `s`.
    pub fn scaled(&self, s: i64) -> (r: Vector)
        requires
            self.wf(),
            -SPAN_MAX <= s <= SPAN_MAX,
        ensures
            r.x == self.x * s,
            r.y == self.y * s,
    {
        proof {
            lemma_product_bound(self.x as int, s as int, SPAN_MAX as int, SPAN_MAX as int);
            lemma_product_bound(self.y as int, s as int, SPAN_MAX as int, SPAN_MAX as int);
        }
        Vector { x: self.x * s, y: self.y * s }
    }

    /// The vector's direction: the vector of length one that points the same
    /// way. The zero vector has none.
    pub fn normalized(&self) -> (r: Result<Direction, GeometryError>)
        requires
            self.wf(),
        ensures
            (self.x == 0 && self.y == 0) <==> r is Err,
            r matches Err(e) ==> e == GeometryError::DegenerateInput,
            r matches Ok(d) ==> d.wf() && d.x == self.x && d.y == self.y && d.norm_squared
                == self.spec_magnitude_squared(),
    {
        if self.x == 0 && self.y == 0 {
            Err(GeometryError::DegenerateInput)
        } else {
            proof {
                lemma_product_bound(self.x as int, self.x as int, SPAN_MAX as int, SPAN_MAX as int);
                lemma_product_bound(self.y as int, self.y as int, SPAN_MAX as int, SPAN_MAX as int);
                lemma_norm_zero(self.x as int, self.y as int);
            }
            Ok(Direction { x: self.x, y: self.y, norm_squared: self.magnitude_squared() as u64 })
        }
    }

    /// The vector's rise over its run; a vector that runs nowhere has none.
    pub fn slope(&self) -> (r: Option<Ratio>)
        ensures
            self.x == 0 <==> r is None,
            r matches Some(s) ==> s.wf() && s@ == self.spec_slope(),
    {
        if self.x == 0 {
            None
        } else {
            Some(Ratio::of(self.y as i128, self.x as i128))
        }
    }
}

} // verus!
