//! Three-component vectors over any scalar.
//!
//! A `Vec3` serves as a point, as a direction and as a colour. Its operators are
//! those of `core::ops`, component by component; what each computes is given by
//! the `*_spec` function of the same operator, and when it is defined by the
//! `*_req` function.

use crate::arith::{
    isqrt, lemma_isqrt_exists, lemma_isqrt_of_square, lemma_mul_bounded, lemma_mul_sign,
    lemma_small_square, lemma_trunc_div_of_multiple, lemma_trunc_div_shrinks, signum, trunc_div,
};
use crate::scalar::{obeys_scalar, Scalar, ISQRT_LIMIT};
use core::ops::{Add, AddAssign, Div, DivAssign, Mul, MulAssign, Neg, Sub, SubAssign};
use vstd::prelude::*;
use vstd::std_specs::ops::{AddSpec, DivSpec, MulSpec, NegSpec, SubSpec};

verus! {

/// A vector of three scalars.
#[derive(Debug)]
pub struct Vec3<T>(pub T, pub T, pub T);

impl<T: Copy> Clone for Vec3<T> {
    fn clone(&self) -> (v: Self)
        ensures
            v == *self,
    {
        *self
    }
}

impl<T: Copy> Copy for Vec3<T> {

}

impl<T> Vec3<T> {
    /// Builds the vector `(a, b, c)`.
    pub fn new(a: T, b: T, c: T) -> (v: Self)
        ensures
            v == Vec3(a, b, c),
    {
        Self(a, b, c)
    }
}

/// Whether `a * b - c * d` is defined.
pub open spec fn cross_term_req<T: Sub<Output = T> + Mul<Output = T>>(
    a: T,
    b: T,
    c: T,
    d: T,
) -> bool {
    &&& a.mul_req(b)
    &&& c.mul_req(d)
    &&& a.mul_spec(b).sub_req(c.mul_spec(d))
}

/// The value of `a * b - c * d`.
pub open spec fn cross_term_spec<T: Sub<Output = T> + Mul<Output = T>>(
    a: T,
    b: T,
    c: T,
    d: T,
) -> T {
    a.mul_spec(b).sub_spec(c.mul_spec(d))
}

impl<T: Copy + Add<Output = T> + Sub<Output = T> + Mul<Output = T>> Vec3<T> {
    /// Whether the dot product of `self` and `rhs` is defined: the three products
    /// and the two sums are.
    pub open spec fn dot_req(self, rhs: Self) -> bool {
        &&& T::obeys_add_spec()
        &&& T::obeys_mul_spec()
        &&& self.0.mul_req(rhs.0)
        &&& self.1.mul_req(rhs.1)
        &&& self.2.mul_req(rhs.2)
        &&& self.0.mul_spec(rhs.0).add_req(self.1.mul_spec(rhs.1))
        &&& self.0.mul_spec(rhs.0).add_spec(self.1.mul_spec(rhs.1)).add_req(
            self.2.mul_spec(rhs.2),
        )
    }

    /// The dot product: the sum of the products of matching components, added
    /// from the first component on.
    pub open spec fn dot_spec(self, rhs: Self) -> T {
        self.0.mul_spec(rhs.0).add_spec(self.1.mul_spec(rhs.1)).add_spec(self.2.mul_spec(rhs.2))
    }

    /// Returns the dot product of `self` and `rhs`.
    pub fn dot(&self, rhs: &Self) -> (d: T)
        requires
            self.dot_req(*rhs),
        ensures
            d == self.dot_spec(*rhs),
    {
        (self.0 * rhs.0) + (self.1 * rhs.1) + (self.2 * rhs.2)
    }

    /// Whether the cross product of `self` and `rhs` is defined.
    pub open spec fn cross_req(self, rhs: Self) -> bool {
        &&& T::obeys_sub_spec()
        &&& T::obeys_mul_spec()
        &&& cross_term_req(self.1, rhs.2, self.2, rhs.1)
        &&& cross_term_req(self.2, rhs.0, self.0, rhs.2)
        &&& cross_term_req(self.0, rhs.1, self.1, rhs.0)
    }

    /// The cross product, by the right-hand rule.
    pub open spec fn cross_spec(self, rhs: Self) -> Self {
        Vec3(
            cross_term_spec(self.1, rhs.2, self.2, rhs.1),
            cross_term_spec(self.2, rhs.0, self.0, rhs.2),
            cross_term_spec(self.0, rhs.1, self.1, rhs.0),
        )
    }

    /// Returns the cross product of `self` and `rhs`.
    pub fn cross(&self, rhs: &Self) -> (c: Self)
        requires
            self.cross_req(*rhs),
        ensures
            c == self.cross_spec(*rhs),
    {
        Self(
            self.1 * rhs.2 - self.2 * rhs.1,
            self.2 * rhs.0 - self.0 * rhs.2,
            self.0 * rhs.1 - self.1 * rhs.0,
        )
    }
}

impl<T: Neg<Output = T>> Neg for Vec3<T> {
    type Output = Self;

    /// Negates each component. Asks for `neg_req`, as the operator's own
    /// specification has it.
    fn neg(self) -> (v: Self)
        ensures
            T::obeys_neg_spec() ==> v == Vec3(
                self.0.neg_spec(),
                self.1.neg_spec(),
                self.2.neg_spec(),
            ),
    {
        Self(self.0.neg(), self.1.neg(), self.2.neg())
    }
}

impl<T: Neg<Output = T>> vstd::std_specs::ops::NegSpecImpl for Vec3<T> {
    open spec fn obeys_neg_spec() -> bool {
        T::obeys_neg_spec()
    }

    open spec fn neg_req(self) -> bool {
        self.0.neg_req() && self.1.neg_req() && self.2.neg_req()
    }

    open spec fn neg_spec(self) -> Self {
        Vec3(self.0.neg_spec(), self.1.neg_spec(), self.2.neg_spec())
    }
}

impl<T: Add<Output = T>> Add for Vec3<T> {
    type Output = Self;

    /// Adds component by component. Asks for `add_req`, as the operator's own
    /// specification has it.
    fn add(self, rhs: Self) -> (v: Self)
        ensures
            T::obeys_add_spec() ==> v == Vec3(
                self.0.add_spec(rhs.0),
                self.1.add_spec(rhs.1),
                self.2.add_spec(rhs.2),
            ),
    {
        Self(self.0 + rhs.0, self.1 + rhs.1, self.2 + rhs.2)
    }
}

impl<T: Add<Output = T>> vstd::std_specs::ops::AddSpecImpl for Vec3<T> {
    open spec fn obeys_add_spec() -> bool {
        T::obeys_add_spec()
    }

    open spec fn add_req(self, rhs: Self) -> bool {
        self.0.add_req(rhs.0) && self.1.add_req(rhs.1) && self.2.add_req(rhs.2)
    }

    open spec fn add_spec(self, rhs: Self) -> Self {
        Vec3(self.0.add_spec(rhs.0), self.1.add_spec(rhs.1), self.2.add_spec(rhs.2))
    }
}

impl<T: Copy + Add<Output = T>> AddAssign for Vec3<T> {
    /// Adds `rhs` to `self` in place.
    fn add_assign(&mut self, rhs: Self)
        requires
            old(self).add_req(rhs),
        ensures
            T::obeys_add_spec() ==> *final(self) == old(self).add_spec(rhs),
    {
        self.0 = self.0 + rhs.0;
        self.1 = self.1 + rhs.1;
        self.2 = self.2 + rhs.2;
    }
}

impl<T: Neg<Output = T> + Add<Output = T>> Sub for Vec3<T> {
    type Output = Self;

    /// Subtracts by adding the negation of `rhs`. Asks for `sub_req`, as the
    /// operator's own specification has it.
    fn sub(self, rhs: Self) -> (v: Self)
        ensures
            T::obeys_neg_spec() && T::obeys_add_spec() ==> v == Vec3(
                self.0.add_spec(rhs.0.neg_spec()),
                self.1.add_spec(rhs.1.neg_spec()),
                self.2.add_spec(rhs.2.neg_spec()),
            ),
    {
        self + rhs.neg()
    }
}

impl<T: Neg<Output = T> + Add<Output = T>> vstd::std_specs::ops::SubSpecImpl for Vec3<T> {
    open spec fn obeys_sub_spec() -> bool {
        T::obeys_neg_spec() && T::obeys_add_spec()
    }

    open spec fn sub_req(self, rhs: Self) -> bool {
        T::obeys_neg_spec() && rhs.neg_req() && self.add_req(rhs.neg_spec())
    }

    open spec fn sub_spec(self, rhs: Self) -> Self {
        self.add_spec(rhs.neg_spec())
    }
}

impl<T: Sub<Output = T>> Vec3<T> {
    /// Whether each component of `rhs` can be subtracted from that of `self`.
    pub open spec fn sub_assign_req(self, rhs: Self) -> bool {
        self.0.sub_req(rhs.0) && self.1.sub_req(rhs.1) && self.2.sub_req(rhs.2)
    }

    /// The component-wise difference that `-=` leaves in place.
    pub open spec fn sub_assign_spec(self, rhs: Self) -> Self {
        Vec3(self.0.sub_spec(rhs.0), self.1.sub_spec(rhs.1), self.2.sub_spec(rhs.2))
    }
}

impl<T: Copy + Sub<Output = T>> SubAssign for Vec3<T> {
    /// Subtracts `rhs` from `self` in place, component by component.
    fn sub_assign(&mut self, rhs: Self)
        requires
            old(self).sub_assign_req(rhs),
        ensures
            T::obeys_sub_spec() ==> *final(self) == old(self).sub_assign_spec(rhs),
    {
        self.0 = self.0 - rhs.0;
        self.1 = self.1 - rhs.1;
        self.2 = self.2 - rhs.2;
    }
}

impl<T: Copy + Mul<Output = T>> Mul<T> for Vec3<T> {
    type Output = Self;

    /// Multiplies each component by `rhs`. Asks for `mul_req`, as the operator's
    /// own specification has it.
    fn mul(self, rhs: T) -> (v: Self)
        ensures
            T::obeys_mul_spec() ==> v == Vec3(
                self.0.mul_spec(rhs),
                self.1.mul_spec(rhs),
                self.2.mul_spec(rhs),
            ),
    {
        Self(self.0 * rhs, self.1 * rhs, self.2 * rhs)
    }
}

impl<T: Copy + Mul<Output = T>> vstd::std_specs::ops::MulSpecImpl<T> for Vec3<T> {
    open spec fn obeys_mul_spec() -> bool {
        T::obeys_mul_spec()
    }

    open spec fn mul_req(self, rhs: T) -> bool {
        self.0.mul_req(rhs) && self.1.mul_req(rhs) && self.2.mul_req(rhs)
    }

    open spec fn mul_spec(self, rhs: T) -> Self {
        Vec3(self.0.mul_spec(rhs), self.1.mul_spec(rhs), self.2.mul_spec(rhs))
    }
}

impl<T: Copy + Mul<Output = T>> MulAssign<T> for Vec3<T> {
    /// Multiplies `self` by `rhs` in place.
    fn mul_assign(&mut self, rhs: T)
        requires
            old(self).mul_req(rhs),
        ensures
            T::obeys_mul_spec() ==> *final(self) == old(self).mul_spec(rhs),
    {
        self.0 = self.0 * rhs;
        self.1 = self.1 * rhs;
        self.2 = self.2 * rhs;
    }
}

impl<T: Copy + Div<Output = T>> Div<T> for Vec3<T> {
    type Output = Self;

    /// Divides each component by `rhs`. Asks for `div_req`, as the operator's
    /// own specification has it.
    fn div(self, rhs: T) -> (v: Self)
        ensures
            T::obeys_div_spec() ==> v == Vec3(
                self.0.div_spec(rhs),
                self.1.div_spec(rhs),
                self.2.div_spec(rhs),
            ),
    {
        Self(self.0 / rhs, self.1 / rhs, self.2 / rhs)
    }
}

impl<T: Copy + Div<Output = T>> vstd::std_specs::ops::DivSpecImpl<T> for Vec3<T> {
    open spec fn obeys_div_spec() -> bool {
        T::obeys_div_spec()
    }

    open spec fn div_req(self, rhs: T) -> bool {
        self.0.div_req(rhs) && self.1.div_req(rhs) && self.2.div_req(rhs)
    }

    open spec fn div_spec(self, rhs: T) -> Self {
        Vec3(self.0.div_spec(rhs), self.1.div_spec(rhs), self.2.div_spec(rhs))
    }
}

impl<T: Copy + Div<Output = T>> DivAssign<T> for Vec3<T> {
    /// Divides `self` by `rhs` in place.
    fn div_assign(&mut self, rhs: T)
        requires
            old(self).div_req(rhs),
        ensures
            T::obeys_div_spec() ==> *final(self) == old(self).div_spec(rhs),
    {
        self.0 = self.0 / rhs;
        self.1 = self.1 / rhs;
        self.2 = self.2 / rhs;
    }
}

// Length and normalization are stated over the division above, and stand below
// it for Verus to prove that division first.
impl<T: Scalar> Vec3<T> {
    /// Whether the length of `self` is defined: its dot product with itself is,
    /// and the square root of that may be taken.
    pub open spec fn len_req(self) -> bool {
        &&& obeys_scalar::<T>()
        &&& self.dot_req(self)
        &&& self.dot_spec(self).sqrt_req()
    }

    /// The Euclidean length: the square root of the dot product of `self` with
    /// itself.
    pub open spec fn len_spec(self) -> T {
        self.dot_spec(self).sqrt_spec()
    }

    /// Returns the Euclidean length of `self`.
    pub fn len(&self) -> (l: T)
        requires
            self.len_req(),
        ensures
            l == self.len_spec(),
    {
        self.dot(self).sqrt()
    }

    /// Whether `self` can be normalized: its length is defined and each component
    /// can be divided by it.
    pub open spec fn normalize_req(self) -> bool {
        &&& self.len_req()
        &&& self.div_req(self.len_spec())
    }

    /// `self` divided by its length.
    pub open spec fn normalize_spec(self) -> Self {
        self.div_spec(self.len_spec())
    }

    /// Returns the vector with the direction of `self` and length one, as far as
    /// the scalar type can represent it.
    pub fn normalize(&self) -> (n: Self)
        requires
            self.normalize_req(),
        ensures
            n == self.normalize_spec(),
    {
        let len = self.len();
        Vec3(self.0 / len, self.1 / len, self.2 / len)
    }
}

/// Exact statements for vectors of 64-bit integers, over the integers without
/// the limits of `i64`.
impl Vec3<i64> {
    /// The dot product over the integers.
    pub open spec fn dot_int(self, rhs: Self) -> int {
        self.0 * rhs.0 + self.1 * rhs.1 + self.2 * rhs.2
    }

    /// The square of the Euclidean distance between `self` and `other`, over the
    /// integers.
    pub open spec fn dist_sq(self, other: Self) -> int {
        (self.0 - other.0) * (self.0 - other.0) + (self.1 - other.1) * (self.1 - other.1) + (
        self.2 - other.2) * (self.2 - other.2)
    }

    /// Where the dot product is defined, it is the dot product over the
    /// integers.
    pub proof fn lemma_dot_exact(self, rhs: Self)
        requires
            self.dot_req(rhs),
        ensures
            self.dot_spec(rhs) == self.dot_int(rhs),
    {
    }

    /// Where the difference of two vectors is defined, it is the difference of
    /// their components, although it is computed by adding a negation.
    pub proof fn lemma_sub_exact(self, rhs: Self)
        requires
            self.sub_req(rhs),
        ensures
            self.sub_spec(rhs).0 == self.0 - rhs.0,
            self.sub_spec(rhs).1 == self.1 - rhs.1,
            self.sub_spec(rhs).2 == self.2 - rhs.2,
    {
    }

    /// Whether each component of `self` is at most `limit` in size.
    pub open spec fn bounded(self, limit: int) -> bool {
        &&& -limit <= self.0 <= limit
        &&& -limit <= self.1 <= limit
        &&& -limit <= self.2 <= limit
    }

    /// The dot product of two vectors of bounded size is defined where three
    /// times the product of the bounds is an `i64`, and is at most that in size.
    pub proof fn lemma_dot_defined(self, rhs: Self, a: int, b: int)
        requires
            self.bounded(a),
            rhs.bounded(b),
            3 * (a * b) <= i64::MAX,
        ensures
            self.dot_req(rhs),
            self.dot_spec(rhs) == self.dot_int(rhs),
            -(3 * (a * b)) <= self.dot_int(rhs) <= 3 * (a * b),
    {
        lemma_mul_bounded(self.0 as int, rhs.0 as int, a, b);
        lemma_mul_bounded(self.1 as int, rhs.1 as int, a, b);
        lemma_mul_bounded(self.2 as int, rhs.2 as int, a, b);
    }

    /// A vector of bounded size that is not the zero vector can be normalized
    /// where three times the square of the bound is an `i64`. No component grows
    /// or changes its sign.
    pub proof fn lemma_normalize_defined(self, limit: int)
        requires
            self.bounded(limit),
            3 * (limit * limit) <= i64::MAX,
            self.0 != 0 || self.1 != 0 || self.2 != 0,
        ensures
            self.normalize_req(),
            self.len_spec() == isqrt(self.dot_int(self)),
            self.len_spec() >= 1,
            self.normalize_spec().0 == trunc_div(self.0 as int, self.len_spec() as int),
            self.normalize_spec().1 == trunc_div(self.1 as int, self.len_spec() as int),
            self.normalize_spec().2 == trunc_div(self.2 as int, self.len_spec() as int),
            self.normalize_spec().bounded(limit),
    {
        self.lemma_dot_defined(self, limit, limit);
        lemma_small_square(self.0 as int);
        lemma_small_square(self.1 as int);
        lemma_small_square(self.2 as int);
        let sq = self.dot_int(self);
        assert(sq >= 1);
        lemma_isqrt_exists(sq);
        let len = isqrt(sq);
        if len == 0 {
            assert((len + 1) * (len + 1) == 1) by (nonlinear_arith)
                requires
                    len == 0,
            ;
        }
        assert(self.len_spec() == len);
        lemma_trunc_div_shrinks(self.0 as int, len);
        lemma_trunc_div_shrinks(self.1 as int, len);
        lemma_trunc_div_shrinks(self.2 as int, len);
    }

    /// Whether `self` is one of the six vectors of length one: a single
    /// component is `1` or `-1`, the other two are `0`.
    pub open spec fn is_unit(self) -> bool {
        ||| (self.0 == 1 || self.0 == -1) && self.1 == 0 && self.2 == 0
        ||| self.0 == 0 && (self.1 == 1 || self.1 == -1) && self.2 == 0
        ||| self.0 == 0 && self.1 == 0 && (self.2 == 1 || self.2 == -1)
    }

    /// The vectors of length one are those whose dot product with themselves
    /// is one.
    pub proof fn lemma_unit_length(self)
        ensures
            self.is_unit() <==> self.dot_int(self) == 1,
    {
        lemma_small_square(self.0 as int);
        lemma_small_square(self.1 as int);
        lemma_small_square(self.2 as int);
    }

    /// A vector of length one can be normalized, and is its own normalization.
    pub proof fn lemma_normalize_unit(self)
        requires
            self.is_unit(),
        ensures
            self.normalize_req(),
            self.normalize_spec() == self,
    {
        self.lemma_unit_length();
        lemma_isqrt_of_square(1);
        assert(self.dot_req(self));
        assert(self.dot_spec(self) == 1);
        assert(self.len_spec() == 1);
    }

    /// Whether `self` lies along an axis: one component is not zero, the other
    /// two are.
    pub open spec fn on_axis(self) -> bool {
        ||| self.0 != 0 && self.1 == 0 && self.2 == 0
        ||| self.0 == 0 && self.1 != 0 && self.2 == 0
        ||| self.0 == 0 && self.1 == 0 && self.2 != 0
    }

    /// A vector along an axis can be normalized where the square of its length
    /// is an `i64`, and its normalization is the vector of length one that points
    /// the same way.
    pub proof fn lemma_normalize_axis(self)
        requires
            self.on_axis(),
            self.bounded(ISQRT_LIMIT - 1),
        ensures
            self.normalize_req(),
            self.normalize_spec().is_unit(),
            self.normalize_spec().0 == signum(self.0 as int),
            self.normalize_spec().1 == signum(self.1 as int),
            self.normalize_spec().2 == signum(self.2 as int),
    {
        let k = self.0 + self.1 + self.2;
        let size = if k >= 0 {
            k
        } else {
            -k
        };
        let lim = ISQRT_LIMIT - 1;
        lemma_mul_bounded(self.0 as int, self.0 as int, lim, lim);
        lemma_mul_bounded(self.1 as int, self.1 as int, lim, lim);
        lemma_mul_bounded(self.2 as int, self.2 as int, lim, lim);
        assert(lim * lim == 9223372030926249001) by (nonlinear_arith)
            requires
                lim == 3037000499,
        ;
        lemma_small_square(self.0 as int);
        lemma_small_square(self.1 as int);
        lemma_small_square(self.2 as int);
        assert(self.dot_req(self));
        assert(self.dot_int(self) == size * size) by {
            assert(size * size == k * k) by (nonlinear_arith)
                requires
                    size == k || size == -k,
            ;
        }
        lemma_isqrt_of_square(size);
        assert(self.len_spec() == size);
        lemma_mul_sign(signum(self.0 as int), size);
        lemma_mul_sign(signum(self.1 as int), size);
        lemma_mul_sign(signum(self.2 as int), size);
        lemma_trunc_div_of_multiple(signum(self.0 as int), size);
        lemma_trunc_div_of_multiple(signum(self.1 as int), size);
        lemma_trunc_div_of_multiple(signum(self.2 as int), size);
    }

    /// The cross product is orthogonal to both of its factors.
    pub proof fn lemma_cross_orthogonal(self, rhs: Self)
        requires
            self.cross_req(rhs),
        ensures
            self.dot_int(self.cross_spec(rhs)) == 0,
            rhs.dot_int(self.cross_spec(rhs)) == 0,
    {
        let c = self.cross_spec(rhs);
        assert(c.0 == self.1 * rhs.2 - self.2 * rhs.1);
        assert(c.1 == self.2 * rhs.0 - self.0 * rhs.2);
        assert(c.2 == self.0 * rhs.1 - self.1 * rhs.0);
        lemma_triple_product(
            self.0 as int,
            self.1 as int,
            self.2 as int,
            rhs.0 as int,
            rhs.1 as int,
            rhs.2 as int,
        );
        lemma_triple_product(
            rhs.0 as int,
            rhs.1 as int,
            rhs.2 as int,
            self.0 as int,
            self.1 as int,
            self.2 as int,
        );
        assert(rhs.1 * self.2 - rhs.2 * self.1 == -(self.1 * rhs.2 - self.2 * rhs.1))
            by (nonlinear_arith);
        assert(rhs.2 * self.0 - rhs.0 * self.2 == -(self.2 * rhs.0 - self.0 * rhs.2))
            by (nonlinear_arith);
        assert(rhs.0 * self.1 - rhs.1 * self.0 == -(self.0 * rhs.1 - self.1 * rhs.0))
            by (nonlinear_arith);
        lemma_mul_negated(rhs.0 as int, self.1 * rhs.2 - self.2 * rhs.1);
        lemma_mul_negated(rhs.1 as int, self.2 * rhs.0 - self.0 * rhs.2);
        lemma_mul_negated(rhs.2 as int, self.0 * rhs.1 - self.1 * rhs.0);
    }
}

/// A vector has no part along its cross product with another: written out over
/// the integers, for the first factor.
proof fn lemma_triple_product(a0: int, a1: int, a2: int, b0: int, b1: int, b2: int)
    ensures
        a0 * (a1 * b2 - a2 * b1) + a1 * (a2 * b0 - a0 * b2) + a2 * (a0 * b1 - a1 * b0) == 0,
{
    assert(a0 * (a1 * b2 - a2 * b1) == a0 * (a1 * b2) - a0 * (a2 * b1)) by (nonlinear_arith);
    assert(a1 * (a2 * b0 - a0 * b2) == a1 * (a2 * b0) - a1 * (a0 * b2)) by (nonlinear_arith);
    assert(a2 * (a0 * b1 - a1 * b0) == a2 * (a0 * b1) - a2 * (a1 * b0)) by (nonlinear_arith);
    assert(a0 * (a1 * b2) == a1 * (a0 * b2)) by (nonlinear_arith);
    assert(a0 * (a2 * b1) == a2 * (a0 * b1)) by (nonlinear_arith);
    assert(a1 * (a2 * b0) == a2 * (a1 * b0)) by (nonlinear_arith);
}

/// A product with a negated factor is the negated product.
proof fn lemma_mul_negated(x: int, y: int)
    ensures
        x * (-y) == -(x * y),
{
    assert(x * (-y) == -(x * y)) by (nonlinear_arith);
}

} // verus!
