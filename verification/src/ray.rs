//! Rays, hit records, and the capability of being hit.

use crate::arith::{isqrt, lemma_isqrt_of_square, lemma_mul_sign};
use crate::scalar::{obeys_scalar, Scalar};
use crate::vec3::Vec3;
use core::ops::Neg;
use vstd::prelude::*;
use vstd::std_specs::cmp::PartialOrdIs;
use vstd::std_specs::ops::{AddSpec, MulSpec, NegSpec};

verus! {

/// A point in space: x, y, z.
pub type Point<T> = Vec3<T>;

/// A half-line: a starting position and a direction, walked by a distance `t`.
///
/// The direction is normalized once, when the ray is built, and never again.
#[derive(Debug)]
pub struct Ray<T> {
    pos: Point<T>,
    dir: Vec3<T>,
}

impl<T: Copy> Clone for Ray<T> {
    fn clone(&self) -> (ray: Self)
        ensures
            ray == *self,
    {
        *self
    }
}

impl<T: Copy> Copy for Ray<T> {

}

impl<T: Scalar> Ray<T> {
    /// The position the ray starts from.
    pub closed spec fn spec_pos(&self) -> Point<T> {
        self.pos
    }

    /// The direction the ray was given, normalized.
    pub closed spec fn spec_dir(&self) -> Vec3<T> {
        self.dir
    }

    /// The ray that starts at `pos` and has the stored direction `dir`, taken as
    /// it is.
    pub closed spec fn with_dir(pos: Point<T>, dir: Vec3<T>) -> Self {
        Ray { pos, dir }
    }

    /// `with_dir` builds the ray with exactly these two parts, and a ray is
    /// nothing but its two parts.
    pub proof fn lemma_with_dir(self)
        ensures
            Self::with_dir(self.pos(), self.dir()) == self,
            forall|pos: Point<T>, dir: Vec3<T>|
                #![trigger Self::with_dir(pos, dir)]
                Self::with_dir(pos, dir).pos() == pos && Self::with_dir(pos, dir).dir() == dir,
    {
    }

    /// Builds the ray from `pos` in the direction of `dir`. The position is
    /// stored as given; the direction is stored normalized.
    pub fn new(pos: Point<T>, dir: Vec3<T>) -> (ray: Self)
        requires
            dir.normalize_req(),
        ensures
            ray == Self::with_dir(pos, dir.normalize_spec()),
            ray.pos() == pos,
            ray.dir() == dir.normalize_spec(),
    {
        Self { pos, dir: dir.normalize() }
    }

    /// Returns the position the ray starts from.
    #[verifier::when_used_as_spec(spec_pos)]
    pub fn pos(&self) -> (pos: Point<T>)
        ensures
            pos == self.pos(),
    {
        self.pos
    }

    /// Returns the stored direction.
    #[verifier::when_used_as_spec(spec_dir)]
    pub fn dir(&self) -> (dir: Vec3<T>)
        ensures
            dir == self.dir(),
    {
        self.dir
    }

    /// Whether the point at distance `t` is defined.
    pub open spec fn at_req(&self, t: T) -> bool {
        &&& T::obeys_mul_spec()
        &&& T::obeys_add_spec()
        &&& self.dir().mul_req(t)
        &&& self.pos().add_req(self.dir().mul_spec(t))
    }

    /// The point at distance `t` along the ray: `pos + dir * t`. A negative `t`
    /// lies behind the starting position.
    pub open spec fn at_spec(&self, t: T) -> Point<T> {
        self.pos().add_spec(self.dir().mul_spec(t))
    }

    /// Returns the point at distance `t` along the ray.
    pub fn at(&self, t: T) -> (p: Point<T>)
        requires
            self.at_req(t),
        ensures
            p == self.at_spec(t),
    {
        self.pos + self.dir * t
    }
}

impl Ray<i64> {
    /// Along an axis, the point at a distance of bounded size from a start of
    /// bounded size is defined where the sum of the bounds is an `i64`, and is at
    /// most that in size.
    pub proof fn lemma_at_defined(self, t: i64, a: int, b: int)
        requires
            self.dir().is_unit(),
            self.pos().bounded(a),
            -b <= t <= b,
            a + b <= i64::MAX,
        ensures
            self.at_req(t),
            self.at_spec(t).bounded(a + b),
    {
        let d = self.dir();
        lemma_mul_sign(d.0 as int, t as int);
        lemma_mul_sign(d.1 as int, t as int);
        lemma_mul_sign(d.2 as int, t as int);
    }

    /// Walking a distance `t` along the ray moves the point by `t` times the
    /// direction, so its distance from the start is the size of `t` times the
    /// length of the direction: for a direction of length one, exactly the size
    /// of `t`, whether `t` is positive or negative.
    pub proof fn lemma_at_distance(self, t: i64)
        requires
            self.at_req(t),
        ensures
            self.at_spec(t).0 - self.pos().0 == self.dir().0 * t,
            self.at_spec(t).1 - self.pos().1 == self.dir().1 * t,
            self.at_spec(t).2 - self.pos().2 == self.dir().2 * t,
            self.at_spec(t).dist_sq(self.pos()) == t * t * self.dir().dot_int(self.dir()),
            self.dir().is_unit() ==> {
                &&& self.at_spec(t).dist_sq(self.pos()) == t * t
                &&& isqrt(self.at_spec(t).dist_sq(self.pos())) == if t >= 0 {
                    t as int
                } else {
                    -t
                }
            },
    {
        let d = self.dir();
        let (d0, d1, d2) = (d.0 as int, d.1 as int, d.2 as int);
        let k = t as int;
        assert((d0 * k) * (d0 * k) == k * k * (d0 * d0)) by (nonlinear_arith);
        assert((d1 * k) * (d1 * k) == k * k * (d1 * d1)) by (nonlinear_arith);
        assert((d2 * k) * (d2 * k) == k * k * (d2 * d2)) by (nonlinear_arith);
        assert(k * k * (d0 * d0) + k * k * (d1 * d1) + k * k * (d2 * d2) == k * k * (d0 * d0 + d1
            * d1 + d2 * d2)) by (nonlinear_arith);
        d.lemma_unit_length();
        if d.is_unit() {
            let size = if k >= 0 {
                k
            } else {
                -k
            };
            assert(size * size == k * k) by (nonlinear_arith)
                requires
                    size == k || size == -k,
            ;
            assert(k * k * 1 == k * k);
            lemma_isqrt_of_square(size);
        }
    }
}

/// The record of a ray striking a surface.
///
/// The stored normal always points against the ray, whichever side of the
/// surface was struck; `outside` tells whether the surface's own normal already
/// did so.
#[derive(Debug)]
pub struct RayHit<T> {
    /// Point of intersection
    point: Point<T>,
    /// Surface normal at intersection
    normal: Vec3<T>,
    /// Distance along ray to intersection
    dist: T,
    /// Whether the ray is incident on the outside of the surface
    outside: bool,
}

impl<T: Copy> Clone for RayHit<T> {
    fn clone(&self) -> (hit: Self)
        ensures
            hit == *self,
    {
        *self
    }
}

impl<T: Copy> Copy for RayHit<T> {

}

impl<T: Scalar> RayHit<T> {
    /// The point of intersection.
    pub closed spec fn spec_point(&self) -> Point<T> {
        self.point
    }

    /// The surface normal at the intersection, turned against the ray.
    pub closed spec fn spec_normal(&self) -> Vec3<T> {
        self.normal
    }

    /// The distance along the ray to the intersection.
    pub closed spec fn spec_dist(&self) -> T {
        self.dist
    }

    /// Whether the ray struck the outside of the surface.
    pub closed spec fn spec_outside(&self) -> bool {
        self.outside
    }

    /// Whether `normal` opposes the direction of `ray`: their dot product is
    /// below zero.
    pub open spec fn opposes(ray: Ray<T>, normal: Vec3<T>) -> bool {
        ray.dir().dot_spec(normal).is_lt(&T::zero_spec())
    }

    /// The normal that is stored for the surface normal `normal`: `normal` itself
    /// where it opposes the ray, its negation where it does not.
    pub open spec fn oriented(ray: Ray<T>, normal: Vec3<T>) -> Vec3<T> {
        if Self::opposes(ray, normal) {
            normal
        } else {
            normal.neg_spec()
        }
    }

    /// Whether the record for `ray`, `dist` and `normal` is defined.
    pub open spec fn new_req(ray: Ray<T>, dist: T, normal: Vec3<T>) -> bool {
        &&& obeys_scalar::<T>()
        &&& ray.dir().dot_req(normal)
        &&& !Self::opposes(ray, normal) ==> normal.neg_req()
        &&& ray.at_req(dist)
    }

    /// The record of `ray` striking, at distance `dist`, a surface whose own
    /// normal there is `normal`.
    pub closed spec fn new_spec(ray: Ray<T>, dist: T, normal: Vec3<T>) -> Self {
        RayHit {
            point: ray.at_spec(dist),
            normal: Self::oriented(ray, normal),
            dist,
            outside: Self::opposes(ray, normal),
        }
    }

    /// What `new_spec` puts in each field, and that a record is nothing but its
    /// four fields.
    pub proof fn lemma_new_spec(ray: Ray<T>, dist: T, normal: Vec3<T>)
        ensures
            Self::new_spec(ray, dist, normal).point() == ray.at_spec(dist),
            Self::new_spec(ray, dist, normal).normal() == Self::oriented(ray, normal),
            Self::new_spec(ray, dist, normal).dist() == dist,
            Self::new_spec(ray, dist, normal).outside() == Self::opposes(ray, normal),
            forall|a: Self, b: Self|
                a.point() == b.point() && a.normal() == b.normal() && a.dist() == b.dist()
                    && a.outside() == b.outside() ==> a == b,
    {
    }

    /// Builds the record of `ray` striking a surface at distance `dist`, where
    /// the surface's own normal is `normal`. The point is computed from the ray
    /// and the distance, so the two always agree.
    pub fn new(ray: Ray<T>, dist: T, normal: Vec3<T>) -> (hit: Self)
        requires
            Self::new_req(ray, dist, normal),
        ensures
            hit == Self::new_spec(ray, dist, normal),
            hit.point() == ray.at_spec(dist),
            hit.normal() == Self::oriented(ray, normal),
            hit.dist() == dist,
            hit.outside() == Self::opposes(ray, normal),
    {
        let outside = ray.dir().dot(&normal) < T::zero();
        let normal = if outside {
            normal
        } else {
            normal.neg()
        };
        Self { point: ray.at(dist), normal, dist, outside }
    }

    /// Returns the point of intersection.
    #[verifier::when_used_as_spec(spec_point)]
    pub fn point(&self) -> (point: Point<T>)
        ensures
            point == self.point(),
    {
        self.point
    }

    /// Returns the surface normal at the intersection, turned against the ray.
    #[verifier::when_used_as_spec(spec_normal)]
    pub fn normal(&self) -> (normal: Vec3<T>)
        ensures
            normal == self.normal(),
    {
        self.normal
    }

    /// Returns the distance along the ray to the intersection.
    #[verifier::when_used_as_spec(spec_dist)]
    pub fn dist(&self) -> (dist: T)
        ensures
            dist == self.dist(),
    {
        self.dist
    }

    /// Returns whether the ray struck the outside of the surface.
    #[verifier::when_used_as_spec(spec_outside)]
    pub fn outside(&self) -> (outside: bool)
        ensures
            outside == self.outside(),
    {
        self.outside
    }
}

impl RayHit<i64> {
    /// Along an axis, the record of a hit is defined wherever its point is and
    /// the normal can be negated.
    pub proof fn lemma_new_defined(ray: Ray<i64>, dist: i64, normal: Vec3<i64>)
        requires
            ray.dir().is_unit(),
            ray.at_req(dist),
            normal.bounded(i64::MAX as int),
        ensures
            Self::new_req(ray, dist, normal),
    {
        let d = ray.dir();
        lemma_mul_sign(d.0 as int, normal.0 as int);
        lemma_mul_sign(d.1 as int, normal.1 as int);
        lemma_mul_sign(d.2 as int, normal.2 as int);
    }

    /// The stored normal never points along the ray: its dot product with the
    /// ray's direction is zero or below. The hit counts as outside exactly where
    /// the surface's own normal already pointed against the ray.
    pub proof fn lemma_normal_opposes_ray(ray: Ray<i64>, dist: i64, normal: Vec3<i64>)
        requires
            Self::new_req(ray, dist, normal),
        ensures
            Self::new_spec(ray, dist, normal).outside() <==> ray.dir().dot_int(normal) < 0,
            ray.dir().dot_int(Self::new_spec(ray, dist, normal).normal()) <= 0,
    {
        let d = ray.dir();
        let (d0, d1, d2) = (d.0 as int, d.1 as int, d.2 as int);
        let (n0, n1, n2) = (normal.0 as int, normal.1 as int, normal.2 as int);
        d.lemma_dot_exact(normal);
        assert(d0 * (-n0) + d1 * (-n1) + d2 * (-n2) == -(d0 * n0 + d1 * n1 + d2 * n2))
            by (nonlinear_arith);
    }
}

/// The capability of being tested for intersection with a ray.
///
/// A query asks for the intersection at the smallest distance within `min_dist`
/// to `max_dist`, both included. It changes neither the shape nor the ray, and
/// its answer depends on the shape, the ray and the two bounds alone: `hit_spec`
/// names it, so asking twice gives the same answer twice.
///
/// What the smallest distance is, is each shape's own matter and stated with its
/// `hit_spec`. What follows from it for two queries of one shape, `narrows`
/// states; the laws on collections ask that of each shape.
pub trait Hit<T: Scalar> {
    /// Whether the query is defined for this shape.
    spec fn hit_req(&self, ray: Ray<T>, min_dist: T, max_dist: T) -> bool;

    /// The answer to the query: the hit, or `None` where the ray meets the shape
    /// nowhere within the two bounds.
    spec fn hit_spec(&self, ray: Ray<T>, min_dist: T, max_dist: T) -> Option<RayHit<T>>;

    /// Returns the hit of `ray` on this shape within `min_dist` to `max_dist`,
    /// if there is one.
    fn find_ray_hit(&self, ray: Ray<T>, min_dist: T, max_dist: T) -> (hit: Option<RayHit<T>>)
        requires
            self.hit_req(ray, min_dist, max_dist),
        ensures
            hit == self.hit_spec(ray, min_dist, max_dist),
    ;
}

/// A boxed shape is a shape: it answers as the shape in the box does. With
/// `Box<dyn Hit<T>>` as their type, shapes of many kinds can be held together.
impl<T: Scalar, H: Hit<T> + ?Sized> Hit<T> for Box<H> {
    open spec fn hit_req(&self, ray: Ray<T>, min_dist: T, max_dist: T) -> bool {
        (**self).hit_req(ray, min_dist, max_dist)
    }

    open spec fn hit_spec(&self, ray: Ray<T>, min_dist: T, max_dist: T) -> Option<RayHit<T>> {
        (**self).hit_spec(ray, min_dist, max_dist)
    }

    fn find_ray_hit(&self, ray: Ray<T>, min_dist: T, max_dist: T) -> (hit: Option<RayHit<T>>) {
        (**self).find_ray_hit(ray, min_dist, max_dist)
    }
}

/// Whether `shape` keeps to its answer when the upper bound comes down: asked
/// for a hit within `min_dist` to a bound not above `max_dist`, it reports the
/// hit it reports within `min_dist` to `max_dist` where that hit is not beyond
/// the bound, and none otherwise. A shape that reports its nearest intersection
/// within the bounds does so.
pub open spec fn narrows<S: Hit<i64>>(
    shape: S,
    ray: Ray<i64>,
    min_dist: i64,
    max_dist: i64,
) -> bool {
    forall|bound: i64|
        bound <= max_dist ==> #[trigger] shape.hit_spec(ray, min_dist, bound) == kept(
            shape.hit_spec(ray, min_dist, max_dist),
            bound,
        )
}

/// `hit` where it is not beyond `bound`, none otherwise.
pub open spec fn kept(hit: Option<RayHit<i64>>, bound: i64) -> Option<RayHit<i64>> {
    match hit {
        Some(h) => if h.dist() <= bound {
            hit
        } else {
            None
        },
        None => None,
    }
}

} // verus!
