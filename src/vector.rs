use vstd::prelude::*;
use crate::scalar::Scalar;

verus! {

/// A vector of the plane.
#[derive(Clone, Copy, PartialEq, Debug)]
pub struct Vector2<S> {
    pub x: S,
    pub y: S,
}

impl<S: Scalar> Vector2<S> {
    pub open spec fn spec_zero() -> Self {
        Vector2 { x: S::spec_zero(), y: S::spec_zero() }
    }

    pub open spec fn spec_add(self, o: Self) -> Self {
        Vector2 { x: self.x.spec_add(o.x), y: self.y.spec_add(o.y) }
    }

    pub open spec fn spec_sub(self, o: Self) -> Self {
        Vector2 { x: self.x.spec_sub(o.x), y: self.y.spec_sub(o.y) }
    }

    pub open spec fn spec_scale(self, k: S) -> Self {
        Vector2 { x: self.x.spec_mul(k), y: self.y.spec_mul(k) }
    }

    pub open spec fn spec_unscale(self, k: S) -> Self {
        Vector2 { x: self.x.spec_div(k), y: self.y.spec_div(k) }
    }

    pub open spec fn spec_dot(self, o: Self) -> S {
        self.x.spec_mul(o.x).spec_add(self.y.spec_mul(o.y))
    }

    pub open spec fn spec_det(self, o: Self) -> S {
        self.x.spec_mul(o.y).spec_sub(self.y.spec_mul(o.x))
    }

    pub open spec fn spec_length(self) -> S {
        self.spec_dot(self).spec_sqrt()
    }

    pub open spec fn spec_normalized(self) -> Self {
        let len_sqr = self.spec_dot(self);
        if len_sqr.spec_le(S::spec_zero()) {
            Self::spec_zero()
        } else {
            self.spec_unscale(len_sqr.spec_sqrt())
        }
    }

    pub open spec fn spec_rotate(self, angle: S) -> Self {
        let (c, s) = (angle.spec_cos(), angle.spec_sin());
        Vector2 { x: c.spec_mul(self.x).spec_sub(s.spec_mul(self.y)), y: s.spec_mul(self.x).spec_add(c.spec_mul(self.y)) }
    }

    pub open spec fn spec_perp(self) -> Self {
        Vector2 { x: self.y.spec_neg(), y: self.x }
    }

    pub open spec fn spec_perp_cw(self) -> Self {
        Vector2 { x: self.y, y: self.x.spec_neg() }
    }

    pub fn new(x: S, y: S) -> (r: Self)
        ensures
            r.x == x,
            r.y == y,
    {
        Vector2 { x, y }
    }

    pub fn zero() -> (r: Self)
        ensures
            r == Self::spec_zero(),
    {
        let z = S::zero();
        Vector2 { x: z, y: z }
    }

    pub fn add(self, o: Self) -> (r: Self)
        ensures
            r == self.spec_add(o),
    {
        Vector2 { x: self.x.add(o.x), y: self.y.add(o.y) }
    }

    pub fn sub(self, o: Self) -> (r: Self)
        ensures
            r == self.spec_sub(o),
    {
        Vector2 { x: self.x.sub(o.x), y: self.y.sub(o.y) }
    }

    /// Each component multiplied by `k`.
    pub fn scale(self, k: S) -> (r: Self)
        ensures
            r == self.spec_scale(k),
    {
        Vector2 { x: self.x.mul(k), y: self.y.mul(k) }
    }

    /// Each component divided by `k`.
    pub fn unscale(self, k: S) -> (r: Self)
        ensures
            r == self.spec_unscale(k),
    {
        Vector2 { x: self.x.div(k), y: self.y.div(k) }
    }

    pub fn dot(self, o: Self) -> (r: S)
        ensures
            r == self.spec_dot(o),
    {
        self.x.mul(o.x).add(self.y.mul(o.y))
    }

    /// The determinant of the matrix with columns `self` and `o`: the signed
    /// area of the parallelogram that they span.
    pub fn det(self, o: Self) -> (r: S)
        ensures
            r == self.spec_det(o),
    {
        self.x.mul(o.y).sub(self.y.mul(o.x))
    }

    pub fn length(self) -> (r: S)
        ensures
            r == self.spec_length(),
    {
        self.dot(self).sqrt()
    }

    /// The unit vector in the direction of `self`; the zero vector stays as
    /// it is, so that a degenerate direction adds no force.
    pub fn normalized(self) -> (r: Self)
        ensures
            r == self.spec_normalized(),
    {
        let len_sqr = self.dot(self);
        if len_sqr.le(S::zero()) {
            Vector2::zero()
        } else {
            let len = len_sqr.sqrt();
            Vector2 { x: self.x.div(len), y: self.y.div(len) }
        }
    }

    /// The vector turned counterclockwise by `angle` radians.
    pub fn rotate(self, angle: S) -> (r: Self)
        ensures
            r == self.spec_rotate(angle),
    {
        let (c, s) = (angle.cos(), angle.sin());
        Vector2 { x: c.mul(self.x).sub(s.mul(self.y)), y: s.mul(self.x).add(c.mul(self.y)) }
    }

    /// The vector turned by a quarter turn counterclockwise.
    pub fn perp(self) -> (r: Self)
        ensures
            r == self.spec_perp(),
    {
        Vector2 { x: self.y.neg(), y: self.x }
    }

    /// The vector turned by a quarter turn clockwise.
    pub fn perp_cw(self) -> (r: Self)
        ensures
            r == self.spec_perp_cw(),
    {
        Vector2 { x: self.y, y: self.x.neg() }
    }
}

} // verus!
