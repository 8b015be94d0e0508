//! The numbers that vectors, rays and shapes are built from.
//!
//! Everything in this crate is generic over its scalar type. A scalar brings the
//! arithmetic operators and the comparison of the standard library, and adds the
//! two things geometry needs beyond them: a zero and a square root.

use crate::arith::{is_isqrt, isqrt, lemma_isqrt_unique};
use core::ops::{Add, Div, Mul, Neg, Sub};
use vstd::prelude::*;
use vstd::std_specs::cmp::PartialOrdSpec;
use vstd::std_specs::ops::{AddSpec, DivSpec, MulSpec, NegSpec, SubSpec};

verus! {

/// A number type with field-like arithmetic, an order, a zero and a square root.
///
/// The operators are those of `core::ops`; what they compute is named by the
/// `*_spec` functions that `vstd` attaches to them, and when they are defined by
/// the matching `*_req` functions. This trait adds `zero` and `sqrt` in the same
/// style.
///
/// An implementation outside verified code keeps the defaults of the four spec
/// functions. It then claims nothing, and no contract of this crate makes a
/// statement about it: they all ask that the scalar's operations obey their
/// specifications.
pub trait Scalar: Copy + PartialOrd + Neg<Output = Self> + Add<Output = Self> + Sub<
    Output = Self,
> + Mul<Output = Self> + Div<Output = Self> {
    /// Whether `zero` and `sqrt` return what `zero_spec` and `sqrt_spec` say.
    open spec fn obeys_scalar_spec() -> bool {
        false
    }

    /// The additive identity.
    open spec fn zero_spec() -> Self {
        arbitrary()
    }

    /// The values whose square root may be taken.
    open spec fn sqrt_req(self) -> bool {
        true
    }

    /// The square root of `self`, as far as the type can represent it.
    open spec fn sqrt_spec(self) -> Self {
        arbitrary()
    }

    /// Returns the additive identity.
    fn zero() -> (z: Self)
        ensures
            Self::obeys_scalar_spec() ==> z == Self::zero_spec(),
    ;

    /// Returns the square root of `self`.
    fn sqrt(self) -> (root: Self)
        requires
            self.sqrt_req(),
        ensures
            Self::obeys_scalar_spec() ==> root == self.sqrt_spec(),
    ;
}

/// Whether every operation of `T` that this crate uses returns what its spec
/// function says. All contracts that chain operations ask for this, because the
/// second operation is only known to be defined once the result of the first is
/// known.
pub open spec fn obeys_scalar<T: Scalar>() -> bool {
    &&& T::obeys_neg_spec()
    &&& T::obeys_add_spec()
    &&& T::obeys_sub_spec()
    &&& T::obeys_mul_spec()
    &&& T::obeys_div_spec()
    &&& T::obeys_partial_cmp_spec()
    &&& T::obeys_scalar_spec()
}

/// One more than the largest `i64` whose square is still an `i64`.
pub const ISQRT_LIMIT: i64 = 3037000500;

/// The exact scalar: 64-bit integers. Arithmetic is defined where it does not
/// overflow, division truncates, and the square root of a non-negative number is
/// its integer square root.
impl Scalar for i64 {
    open spec fn obeys_scalar_spec() -> bool {
        true
    }

    open spec fn zero_spec() -> i64 {
        0
    }

    open spec fn sqrt_req(self) -> bool {
        self >= 0
    }

    open spec fn sqrt_spec(self) -> i64 {
        isqrt(self as int) as i64
    }

    fn zero() -> (z: i64) {
        0
    }

    fn sqrt(self) -> (root: i64)
        ensures
            is_isqrt(self as int, root as int),
    {
        let mut lo: i64 = 0;
        let mut hi: i64 = ISQRT_LIMIT;
        while hi - lo > 1
            invariant
                0 <= lo < hi <= ISQRT_LIMIT,
                lo * lo <= self < hi * hi,
            decreases hi - lo,
        {
            let mid: i64 = lo + (hi - lo) / 2;
            assert(0 <= mid * mid <= 3037000499 * 3037000499) by (nonlinear_arith)
                requires
                    0 <= mid <= 3037000499,
            ;
            if mid * mid <= self {
                lo = mid;
            } else {
                hi = mid;
            }
        }
        proof {
            lemma_isqrt_unique(self as int, lo as int);
        }
        lo
    }
}

} // verus!
