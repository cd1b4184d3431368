use vstd::prelude::*;

verus! {

/// The number type that the engine computes with.
///
/// The engine never looks inside a number: it computes and compares numbers
/// only through these operations. Each operation is named in specifications
/// by a `spec_` function of the same trait, which each implementation fixes
/// for itself; an operation's only promise is that it returns that function
/// of its arguments, that is, that it is a function. No algebraic law is
/// assumed (a machine float keeps none), so what the engine proves is which
/// operations it applies to which values, in which order.
pub trait Scalar: Copy {
    spec fn spec_zero() -> Self;

    spec fn spec_from_int(n: i64) -> Self;

    spec fn spec_pi() -> Self;

    spec fn spec_add(self, o: Self) -> Self;

    spec fn spec_sub(self, o: Self) -> Self;

    spec fn spec_mul(self, o: Self) -> Self;

    spec fn spec_div(self, o: Self) -> Self;

    spec fn spec_neg(self) -> Self;

    spec fn spec_rem(self, o: Self) -> Self;

    spec fn spec_lt(self, o: Self) -> bool;

    spec fn spec_le(self, o: Self) -> bool;

    spec fn spec_sqrt(self) -> Self;

    spec fn spec_sin(self) -> Self;

    spec fn spec_cos(self) -> Self;

    spec fn spec_atan2(self, x: Self) -> Self;

    spec fn spec_trunc_int(self) -> i64;

    /// The additive identity.
    fn zero() -> (r: Self)
        ensures
            r == Self::spec_zero(),
    ;

    /// The number nearest to `n`.
    fn from_int(n: i64) -> (r: Self)
        ensures
            r == Self::spec_from_int(n),
    ;

    /// Half a turn, in radians.
    fn pi() -> (r: Self)
        ensures
            r == Self::spec_pi(),
    ;

    fn add(self, o: Self) -> (r: Self)
        ensures
            r == self.spec_add(o),
    ;

    fn sub(self, o: Self) -> (r: Self)
        ensures
            r == self.spec_sub(o),
    ;

    fn mul(self, o: Self) -> (r: Self)
        ensures
            r == self.spec_mul(o),
    ;

    fn div(self, o: Self) -> (r: Self)
        ensures
            r == self.spec_div(o),
    ;

    fn neg(self) -> (r: Self)
        ensures
            r == self.spec_neg(),
    ;

    /// The remainder of a division, with the sign of `self`.
    fn rem(self, o: Self) -> (r: Self)
        ensures
            r == self.spec_rem(o),
    ;

    fn lt(self, o: Self) -> (r: bool)
        ensures
            r == self.spec_lt(o),
    ;

    fn le(self, o: Self) -> (r: bool)
        ensures
            r == self.spec_le(o),
    ;

    fn sqrt(self) -> (r: Self)
        ensures
            r == self.spec_sqrt(),
    ;

    fn sin(self) -> (r: Self)
        ensures
            r == self.spec_sin(),
    ;

    fn cos(self) -> (r: Self)
        ensures
            r == self.spec_cos(),
    ;

    /// The angle of the point `(x, y)`, where `self` is `y`: in `(-pi, pi]`.
    fn atan2(self, x: Self) -> (r: Self)
        ensures
            r == self.spec_atan2(x),
    ;

    /// The integer part, saturated to the range of `i64`.
    fn trunc_int(self) -> (r: i64)
        ensures
            r == self.spec_trunc_int(),
    ;
}

/// `num / den` in the number type.
pub fn ratio<S: Scalar>(num: i64, den: i64) -> (r: S)
    ensures
        r == S::spec_from_int(num).spec_div(S::spec_from_int(den)),
{
    S::from_int(num).div(S::from_int(den))
}

} // verus!
