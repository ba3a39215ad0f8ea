use vstd::prelude::*;

verus! {

/// The number type that matrices are made of.
///
/// Only the four ring operations are asked for; nothing is assumed of them
/// (neither associativity nor commutativity), so rounding arithmetic fits too.
pub trait Scalar: Copy + Sized {
    /// The additive unit.
    spec fn zero_value() -> Self;

    /// The multiplicative unit.
    spec fn one_value() -> Self;

    /// The sum of two scalars.
    spec fn sum(self, rhs: Self) -> Self;

    /// The product of two scalars.
    spec fn prod(self, rhs: Self) -> Self;

    fn zero() -> (r: Self)
        ensures
            r == Self::zero_value(),
    ;

    fn one() -> (r: Self)
        ensures
            r == Self::one_value(),
    ;

    fn plus(self, rhs: Self) -> (r: Self)
        ensures
            r == self.sum(rhs),
    ;

    fn times(self, rhs: Self) -> (r: Self)
        ensures
            r == self.prod(rhs),
    ;

    /// Whether two scalars are the same value.
    fn same(self, rhs: Self) -> (r: bool)
        ensures
            r == (self == rhs),
    ;
}

/// Exact integers modulo 2^64, in two's complement.
impl Scalar for i64 {
    open spec fn zero_value() -> i64 {
        0i64
    }

    open spec fn one_value() -> i64 {
        1i64
    }

    open spec fn sum(self, rhs: i64) -> i64 {
        self.wrapping_add(rhs)
    }

    open spec fn prod(self, rhs: i64) -> i64 {
        self.wrapping_mul(rhs)
    }

    fn zero() -> (r: i64) {
        0i64
    }

    fn one() -> (r: i64) {
        1i64
    }

    fn plus(self, rhs: i64) -> (r: i64) {
        self.wrapping_add(rhs)
    }

    fn times(self, rhs: i64) -> (r: i64) {
        self.wrapping_mul(rhs)
    }

    fn same(self, rhs: i64) -> (r: bool) {
        self == rhs
    }
}

} // verus!
