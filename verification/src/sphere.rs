//! Spheres, and where a ray strikes one.
//!
//! With the ray's start `P` and direction `d`, and the sphere's center `C` and
//! radius `r`, the distances `t` at which the ray meets the surface solve
//! `t² (d·d) + 2 t h + c = 0`, where `h = d·(P − C)` and
//! `c = (P − C)·(P − C) − r²`. The ray misses when the discriminant
//! `h² − (d·d) c` is negative.

use crate::arith::{
    is_isqrt, isqrt, lemma_isqrt_exists, lemma_isqrt_of_square, lemma_mul_bounded, lemma_mul_sign,
    lemma_small_square, lemma_trunc_div_of_multiple, lemma_trunc_div_ordered,
    lemma_trunc_div_shrinks, trunc_div,
};
use crate::ray::{narrows, Hit, Point, Ray, RayHit};
use crate::scalar::{obeys_scalar, Scalar};
use crate::vec3::Vec3;
use core::ops::Neg;
use vstd::prelude::*;
use vstd::std_specs::cmp::PartialOrdIs;
use vstd::std_specs::ops::{AddSpec, DivSpec, MulSpec, NegSpec, SubSpec};

verus! {

/// A sphere: a center and a radius. Neither is checked; a radius of zero or
/// below gives what the formulas give.
pub struct Sphere<T> {
    center: Point<T>,
    radius: T,
}

impl<T: Scalar> Sphere<T> {
    /// The center.
    pub closed spec fn spec_center(&self) -> Point<T> {
        self.center
    }

    /// The radius.
    pub closed spec fn spec_radius(&self) -> T {
        self.radius
    }

    /// Builds the sphere around `center` with radius `radius`.
    pub fn new(center: Point<T>, radius: T) -> (sphere: Self)
        ensures
            sphere.center() == center,
            sphere.radius() == radius,
    {
        Self { center, radius }
    }

    /// Returns the center.
    #[verifier::when_used_as_spec(spec_center)]
    pub fn center(&self) -> (center: Point<T>)
        ensures
            center == self.center(),
    {
        self.center
    }

    /// Returns the radius.
    #[verifier::when_used_as_spec(spec_radius)]
    pub fn radius(&self) -> (radius: T)
        ensures
            radius == self.radius(),
    {
        self.radius
    }

    /// The vector from the center to the start of `ray`: `P − C`.
    pub open spec fn offset(&self, ray: Ray<T>) -> Vec3<T> {
        ray.pos().sub_spec(self.center())
    }

    /// The leading coefficient `d·d`.
    pub open spec fn coeff_a(ray: Ray<T>) -> T {
        ray.dir().dot_spec(ray.dir())
    }

    /// Half the linear coefficient: `h = d·(P − C)`.
    pub open spec fn coeff_h(&self, ray: Ray<T>) -> T {
        ray.dir().dot_spec(self.offset(ray))
    }

    /// The constant coefficient `(P − C)·(P − C) − r²`.
    pub open spec fn coeff_c(&self, ray: Ray<T>) -> T {
        self.offset(ray).dot_spec(self.offset(ray)).sub_spec(
            self.radius().mul_spec(self.radius()),
        )
    }

    /// The discriminant `h² − (d·d) c`.
    pub open spec fn discriminant(&self, ray: Ray<T>) -> T {
        self.coeff_h(ray).mul_spec(self.coeff_h(ray)).sub_spec(
            Self::coeff_a(ray).mul_spec(self.coeff_c(ray)),
        )
    }

    /// Whether the discriminant is defined.
    pub open spec fn discriminant_req(&self, ray: Ray<T>) -> bool {
        &&& obeys_scalar::<T>()
        &&& ray.pos().sub_req(self.center())
        &&& ray.dir().dot_req(ray.dir())
        &&& ray.dir().dot_req(self.offset(ray))
        &&& self.offset(ray).dot_req(self.offset(ray))
        &&& self.radius().mul_req(self.radius())
        &&& self.offset(ray).dot_spec(self.offset(ray)).sub_req(
            self.radius().mul_spec(self.radius()),
        )
        &&& self.coeff_h(ray).mul_req(self.coeff_h(ray))
        &&& Self::coeff_a(ray).mul_req(self.coeff_c(ray))
        &&& self.coeff_h(ray).mul_spec(self.coeff_h(ray)).sub_req(
            Self::coeff_a(ray).mul_spec(self.coeff_c(ray)),
        )
    }

    /// Whether the line of `ray` misses the sphere: the discriminant is below
    /// zero.
    pub open spec fn misses(&self, ray: Ray<T>) -> bool {
        self.discriminant(ray).is_lt(&T::zero_spec())
    }

    /// The smaller root: `(−h − sqrt(discriminant)) / (d·d)`.
    pub open spec fn near_root(&self, ray: Ray<T>) -> T {
        self.coeff_h(ray).neg_spec().sub_spec(self.discriminant(ray).sqrt_spec()).div_spec(
            Self::coeff_a(ray),
        )
    }

    /// Whether the smaller root is defined.
    pub open spec fn near_root_req(&self, ray: Ray<T>) -> bool {
        &&& self.discriminant(ray).sqrt_req()
        &&& self.coeff_h(ray).neg_req()
        &&& self.coeff_h(ray).neg_spec().sub_req(self.discriminant(ray).sqrt_spec())
        &&& self.coeff_h(ray).neg_spec().sub_spec(self.discriminant(ray).sqrt_spec()).div_req(
            Self::coeff_a(ray),
        )
    }

    /// The larger root: `(−h + sqrt(discriminant)) / (d·d)`.
    pub open spec fn far_root(&self, ray: Ray<T>) -> T {
        self.coeff_h(ray).neg_spec().add_spec(self.discriminant(ray).sqrt_spec()).div_spec(
            Self::coeff_a(ray),
        )
    }

    /// Whether the larger root is defined.
    pub open spec fn far_root_req(&self, ray: Ray<T>) -> bool {
        &&& self.discriminant(ray).sqrt_req()
        &&& self.coeff_h(ray).neg_req()
        &&& self.coeff_h(ray).neg_spec().add_req(self.discriminant(ray).sqrt_spec())
        &&& self.coeff_h(ray).neg_spec().add_spec(self.discriminant(ray).sqrt_spec()).div_req(
            Self::coeff_a(ray),
        )
    }

    /// Whether `t` lies within `min_dist` to `max_dist`, both included: it is
    /// neither below the first nor above the second.
    pub open spec fn within(t: T, min_dist: T, max_dist: T) -> bool {
        !t.is_lt(&min_dist) && !t.is_gt(&max_dist)
    }

    /// The sphere's own normal at the point `p` of its surface: the direction
    /// from the center to `p`, which points outward.
    pub open spec fn surface_normal(&self, p: Point<T>) -> Vec3<T> {
        p.sub_spec(self.center()).normalize_spec()
    }

    /// The record of `ray` striking the sphere at distance `t`.
    pub open spec fn hit_at(&self, ray: Ray<T>, t: T) -> RayHit<T> {
        RayHit::new_spec(ray, t, self.surface_normal(ray.at_spec(t)))
    }

    /// Whether the record of `ray` striking the sphere at distance `t` is
    /// defined.
    pub open spec fn hit_at_req(&self, ray: Ray<T>, t: T) -> bool {
        &&& ray.at_req(t)
        &&& ray.at_spec(t).sub_req(self.center())
        &&& ray.at_spec(t).sub_spec(self.center()).normalize_req()
        &&& RayHit::new_req(ray, t, self.surface_normal(ray.at_spec(t)))
    }
}

impl<T: Scalar> Hit<T> for Sphere<T> {
    /// A query is defined when every step it takes is: the discriminant; unless
    /// the ray misses, the smaller root; unless that root lies within the bounds,
    /// the larger root; and the record at the root that is reported.
    open spec fn hit_req(&self, ray: Ray<T>, min_dist: T, max_dist: T) -> bool {
        &&& self.discriminant_req(ray)
        &&& !self.misses(ray) ==> {
            &&& self.near_root_req(ray)
            &&& if Self::within(self.near_root(ray), min_dist, max_dist) {
                self.hit_at_req(ray, self.near_root(ray))
            } else {
                &&& self.far_root_req(ray)
                &&& Self::within(self.far_root(ray), min_dist, max_dist) ==> self.hit_at_req(
                    ray,
                    self.far_root(ray),
                )
            }
        }
    }

    /// The nearest-root policy: no hit where the ray misses; else the hit at the
    /// smaller root where that lies within the bounds; else the hit at the larger
    /// root where that does; else no hit.
    open spec fn hit_spec(&self, ray: Ray<T>, min_dist: T, max_dist: T) -> Option<RayHit<T>> {
        if self.misses(ray) {
            None
        } else if Self::within(self.near_root(ray), min_dist, max_dist) {
            Some(self.hit_at(ray, self.near_root(ray)))
        } else if Self::within(self.far_root(ray), min_dist, max_dist) {
            Some(self.hit_at(ray, self.far_root(ray)))
        } else {
            None
        }
    }

    fn find_ray_hit(&self, ray: Ray<T>, min_dist: T, max_dist: T) -> (hit: Option<RayHit<T>>) {
        let dir = ray.dir();
        let offset = ray.pos() - self.center;

        let a = dir.dot(&dir);
        let h = dir.dot(&offset);
        let c = offset.dot(&offset) - self.radius * self.radius;
        let discriminant = h * h - a * c;

        if discriminant < T::zero() {
            return None;
        }
        // Find nearest root within given range
        let mut root = (h.neg() - discriminant.sqrt()) / a;
        if root < min_dist || root > max_dist {
            root = (h.neg() + discriminant.sqrt()) / a;
            if root < min_dist || root > max_dist {
                return None;
            }
        }
        let point = ray.at(root);
        let normal = (point - self.center).normalize();

        Some(RayHit::new(ray, root, normal))
    }
}

impl<T: Scalar> Sphere<T> {
    /// A hit that a sphere reports is the hit at one of its two roots, and that
    /// root lies within the bounds of the query, as the scalar's own comparison
    /// judges it.
    pub proof fn lemma_hit_within(&self, ray: Ray<T>, min_dist: T, max_dist: T)
        ensures
            match self.hit_spec(ray, min_dist, max_dist) {
                Some(hit) => {
                    &&& hit.dist() == self.near_root(ray) || hit.dist() == self.far_root(ray)
                    &&& hit == self.hit_at(ray, hit.dist())
                    &&& Self::within(hit.dist(), min_dist, max_dist)
                },
                None => true,
            },
    {
        let near = self.near_root(ray);
        let far = self.far_root(ray);
        RayHit::lemma_new_spec(ray, near, self.surface_normal(ray.at_spec(near)));
        RayHit::lemma_new_spec(ray, far, self.surface_normal(ray.at_spec(far)));
    }
}

/// Exact statements for spheres over 64-bit integers.
impl Sphere<i64> {
    /// Where the discriminant is defined, its parts are what the formulas say
    /// over the integers.
    pub proof fn lemma_coefficients_exact(&self, ray: Ray<i64>)
        requires
            self.discriminant_req(ray),
        ensures
            self.offset(ray).0 == ray.pos().0 - self.center().0,
            self.offset(ray).1 == ray.pos().1 - self.center().1,
            self.offset(ray).2 == ray.pos().2 - self.center().2,
            Self::coeff_a(ray) == ray.dir().dot_int(ray.dir()),
            self.coeff_h(ray) == ray.dir().dot_int(self.offset(ray)),
            self.coeff_c(ray) == self.offset(ray).dot_int(self.offset(ray)) - self.radius()
                * self.radius(),
            self.discriminant(ray) == self.coeff_h(ray) * self.coeff_h(ray) - Self::coeff_a(ray)
                * self.coeff_c(ray),
    {
        ray.pos().lemma_sub_exact(self.center());
        ray.dir().lemma_dot_exact(ray.dir());
        ray.dir().lemma_dot_exact(self.offset(ray));
        self.offset(ray).lemma_dot_exact(self.offset(ray));
    }

    /// Where the roots are defined, they are what the formulas say over the
    /// integers, with the integer square root and truncating division.
    pub proof fn lemma_roots_exact(&self, ray: Ray<i64>)
        requires
            self.discriminant_req(ray),
            !self.misses(ray),
            self.near_root_req(ray),
            self.far_root_req(ray),
        ensures
            self.discriminant(ray) >= 0,
            Self::coeff_a(ray) > 0,
            self.discriminant(ray).sqrt_spec() == isqrt(self.discriminant(ray) as int),
            is_isqrt(self.discriminant(ray) as int, self.discriminant(ray).sqrt_spec() as int),
            self.near_root(ray) == trunc_div(
                -self.coeff_h(ray) - self.discriminant(ray).sqrt_spec(),
                Self::coeff_a(ray) as int,
            ),
            self.far_root(ray) == trunc_div(
                -self.coeff_h(ray) + self.discriminant(ray).sqrt_spec(),
                Self::coeff_a(ray) as int,
            ),
    {
        let d = ray.dir();
        d.lemma_dot_exact(d);
        lemma_small_square(d.0 as int);
        lemma_small_square(d.1 as int);
        lemma_small_square(d.2 as int);
        lemma_isqrt_exists(self.discriminant(ray) as int);
    }

    /// Where both roots are defined, the smaller root is not above the larger
    /// one.
    pub proof fn lemma_roots_ordered(&self, ray: Ray<i64>)
        requires
            self.discriminant_req(ray),
            !self.misses(ray),
            self.near_root_req(ray),
            self.far_root_req(ray),
        ensures
            self.near_root(ray) <= self.far_root(ray),
    {
        self.lemma_roots_exact(ray);
        let h = self.coeff_h(ray);
        let root = self.discriminant(ray).sqrt_spec();
        lemma_trunc_div_ordered(-h - root, -h + root, Self::coeff_a(ray) as int);
    }

    /// A sphere keeps to its answer when the upper bound comes down: it reports
    /// the nearest of its two roots that lies within the bounds.
    pub proof fn lemma_narrows(&self, ray: Ray<i64>, min_dist: i64, max_dist: i64)
        requires
            self.discriminant_req(ray),
            !self.misses(ray) ==> self.near_root_req(ray) && self.far_root_req(ray),
        ensures
            narrows(*self, ray, min_dist, max_dist),
    {
        if !self.misses(ray) {
            self.lemma_roots_ordered(ray);
            let near = self.near_root(ray);
            let far = self.far_root(ray);
            RayHit::lemma_new_spec(ray, near, self.surface_normal(ray.at_spec(near)));
            RayHit::lemma_new_spec(ray, far, self.surface_normal(ray.at_spec(far)));
        }
    }

    /// The bounds include their ends: a query whose two bounds both equal a root
    /// reports the hit at that root.
    pub proof fn lemma_boundary_hit(&self, ray: Ray<i64>, t: i64)
        requires
            !self.misses(ray),
            t == self.near_root(ray) || t == self.far_root(ray),
        ensures
            self.hit_spec(ray, t, t) == Some(self.hit_at(ray, t)),
    {
    }

    /// For a ray along an axis and a discriminant that is a perfect square,
    /// nothing is rounded, and the point at either root lies on the surface: the
    /// square of its distance from the center is the square of the radius.
    pub proof fn lemma_root_on_surface(&self, ray: Ray<i64>, t: i64)
        requires
            self.discriminant_req(ray),
            !self.misses(ray),
            self.near_root_req(ray),
            self.far_root_req(ray),
            ray.dir().is_unit(),
            self.discriminant(ray).sqrt_spec() * self.discriminant(ray).sqrt_spec()
                == self.discriminant(ray),
            t == self.near_root(ray) || t == self.far_root(ray),
            ray.at_req(t),
        ensures
            ray.at_spec(t).dist_sq(self.center()) == self.radius() * self.radius(),
    {
        let d = ray.dir();
        let o = self.offset(ray);
        let h = self.coeff_h(ray) as int;
        let c = self.coeff_c(ray) as int;
        let root = self.discriminant(ray).sqrt_spec() as int;
        let r = self.radius() as int;
        let k = t as int;
        d.lemma_unit_length();
        self.lemma_coefficients_exact(ray);
        self.lemma_roots_exact(ray);
        ray.lemma_at_distance(t);
        lemma_trunc_div_shrinks(-h - root, 1);
        lemma_trunc_div_shrinks(-h + root, 1);
        lemma_mul_sign(1, c);
        assert(root * root == h * h - c);
        let (d0, d1, d2) = (d.0 as int, d.1 as int, d.2 as int);
        let (o0, o1, o2) = (o.0 as int, o.1 as int, o.2 as int);
        let p = ray.at_spec(t);
        assert(p.0 - self.center().0 == o0 + d0 * k);
        assert(p.1 - self.center().1 == o1 + d1 * k);
        assert(p.2 - self.center().2 == o2 + d2 * k);
        assert((o0 + d0 * k) * (o0 + d0 * k) == o0 * o0 + 2 * k * (d0 * o0) + k * k * (d0 * d0))
            by (nonlinear_arith);
        assert((o1 + d1 * k) * (o1 + d1 * k) == o1 * o1 + 2 * k * (d1 * o1) + k * k * (d1 * d1))
            by (nonlinear_arith);
        assert((o2 + d2 * k) * (o2 + d2 * k) == o2 * o2 + 2 * k * (d2 * o2) + k * k * (d2 * d2))
            by (nonlinear_arith);
        assert(2 * k * (d0 * o0) + 2 * k * (d1 * o1) + 2 * k * (d2 * o2) == 2 * k * h)
            by (nonlinear_arith)
            requires
                h == d0 * o0 + d1 * o1 + d2 * o2,
        ;
        assert(k * k * (d0 * d0) + k * k * (d1 * d1) + k * k * (d2 * d2) == k * k)
            by (nonlinear_arith)
            requires
                d0 * d0 + d1 * d1 + d2 * d2 == 1,
        ;
        assert(k * k + 2 * k * h == -c) by (nonlinear_arith)
            requires
                k == -h - root || k == -h + root,
                root * root == h * h - c,
        ;
    }

    /// A ray along an axis that starts at the center strikes the sphere from
    /// inside: at the distance of the radius, not on the outside, and the stored
    /// normal is the ray's direction turned back toward the start.
    pub proof fn lemma_hit_from_center(&self, ray: Ray<i64>, min_dist: i64, max_dist: i64)
        requires
            self.hit_req(ray, min_dist, max_dist),
            ray.pos() == self.center(),
            ray.dir().is_unit(),
            0 < self.radius(),
            -self.radius() < min_dist <= self.radius() <= max_dist,
        ensures
            self.hit_spec(ray, min_dist, max_dist) == Some(self.hit_at(ray, self.radius())),
            self.hit_at(ray, self.radius()).dist() == self.radius(),
            !self.hit_at(ray, self.radius()).outside(),
            self.hit_at(ray, self.radius()).normal() == ray.dir().neg_spec(),
    {
        let d = ray.dir();
        let o = self.offset(ray);
        let r = self.radius();
        d.lemma_unit_length();
        self.lemma_coefficients_exact(ray);
        assert(o == Vec3(0i64, 0i64, 0i64));
        let (a, h, c) = (Self::coeff_a(ray), self.coeff_h(ray), self.coeff_c(ray));
        assert(a == 1 && h == 0 && c == -(r * r));
        assert(h * h == 0 && a * c == -(r * r)) by (nonlinear_arith)
            requires
                h == 0,
                a == 1,
                c == -(r * r),
        ;
        assert(self.discriminant(ray) == r * r);
        assert(0 <= r * r) by (nonlinear_arith);
        lemma_isqrt_of_square(r as int);
        assert(self.discriminant(ray).sqrt_spec() == r);
        assert(self.near_root(ray) == -r);
        assert(self.far_root(ray) == r);
        let p = ray.at_spec(r);
        let out = p.sub_spec(self.center());
        ray.lemma_at_distance(r);
        p.lemma_sub_exact(self.center());
        assert(out.0 == d.0 * r && out.1 == d.1 * r && out.2 == d.2 * r);
        out.lemma_dot_exact(out);
        assert(out.dot_int(out) == r * r) by {
            assert(p.dist_sq(ray.pos()) == r * r);
        }
        assert(out.len_spec() == r);
        lemma_trunc_div_of_multiple(d.0 as int, r as int);
        lemma_trunc_div_of_multiple(d.1 as int, r as int);
        lemma_trunc_div_of_multiple(d.2 as int, r as int);
        assert(self.surface_normal(p) == d);
        RayHit::lemma_new_spec(ray, r, d);
    }
}

/// A ray along an axis cannot pass through the center of a sphere at one of its
/// roots, unless the radius is zero. Here `h` is the negated distance `k` of the
/// center along the ray, `oo` the square of that distance, and `root` the integer
/// square root of the discriminant `h * h - oo + r * r`.
proof fn lemma_root_off_center(
    h: int,
    oo: int,
    r: int,
    root: int,
    k: int,
    o0: int,
    o1: int,
    o2: int,
)
    requires
        h == -k,
        oo == o0 * o0 + o1 * o1 + o2 * o2,
        ({
            ||| (o0 == k || o0 == -k) && o1 == 0 && o2 == 0
            ||| o0 == 0 && (o1 == k || o1 == -k) && o2 == 0
            ||| o0 == 0 && o1 == 0 && (o2 == k || o2 == -k)
        }),
        is_isqrt(h * h - oo + r * r, root),
        k == -h - root || k == -h + root,
    ensures
        r == 0,
{
    lemma_small_square(o0);
    lemma_small_square(o1);
    lemma_small_square(o2);
    assert(o0 == k || o0 == -k ==> o0 * o0 == k * k) by (nonlinear_arith);
    assert(o1 == k || o1 == -k ==> o1 * o1 == k * k) by (nonlinear_arith);
    assert(o2 == k || o2 == -k ==> o2 * o2 == k * k) by (nonlinear_arith);
    assert(oo == k * k);
    assert(h * h == k * k) by (nonlinear_arith)
        requires
            h == -k,
    ;
    assert(root == 0);
    assert((root + 1) * (root + 1) == 1) by (nonlinear_arith)
        requires
            root == 0,
    ;
    lemma_small_square(r);
}

/// A bound on coordinates and radii within which every query along an axis is
/// defined.
pub const COORD_LIMIT: i64 = 0x10_0000;

/// Queries that are known to be defined: those of tame spheres and rays over
/// 64-bit integers.
impl Sphere<i64> {
    /// Whether the sphere and the ray are tame: the ray runs along an axis, the
    /// coordinates of its start and of the center and the radius stay within
    /// `COORD_LIMIT`, and the radius is not zero.
    pub open spec fn tame(&self, ray: Ray<i64>) -> bool {
        &&& ray.dir().is_unit()
        &&& ray.pos().bounded(COORD_LIMIT as int)
        &&& self.center().bounded(COORD_LIMIT as int)
        &&& -COORD_LIMIT <= self.radius() <= COORD_LIMIT
        &&& self.radius() != 0
    }

    /// For a tame sphere and ray the discriminant is defined. It is the square
    /// of the radius less the squares of the start's offsets from the center
    /// across the ray, so it is not above the square of the radius.
    pub proof fn lemma_tame_discriminant(&self, ray: Ray<i64>)
        requires
            self.tame(ray),
        ensures
            self.discriminant_req(ray),
            self.offset(ray).bounded(2 * COORD_LIMIT),
            Self::coeff_a(ray) == 1,
            -(2 * COORD_LIMIT) <= self.coeff_h(ray) <= 2 * COORD_LIMIT,
            self.discriminant(ray) == self.radius() * self.radius() - (self.offset(ray).dot_int(
                self.offset(ray),
            ) - self.coeff_h(ray) * self.coeff_h(ray)),
            self.discriminant(ray) <= self.radius() * self.radius() <= COORD_LIMIT * COORD_LIMIT,
    {
        let lim = COORD_LIMIT as int;
        let d = ray.dir();
        let r = self.radius() as int;
        d.lemma_unit_length();
        assert(ray.pos().sub_req(self.center()));
        ray.pos().lemma_sub_exact(self.center());
        let o = self.offset(ray);
        let (d0, d1, d2) = (d.0 as int, d.1 as int, d.2 as int);
        let (o0, o1, o2) = (o.0 as int, o.1 as int, o.2 as int);
        assert(o.bounded(2 * lim));
        lemma_small_square(d0);
        lemma_small_square(d1);
        lemma_small_square(d2);
        assert(d.dot_req(d));
        assert(d.dot_spec(d) == 1);
        lemma_mul_sign(d0, o0);
        lemma_mul_sign(d1, o1);
        lemma_mul_sign(d2, o2);
        assert(d.dot_req(o));
        let h = d.dot_spec(o) as int;
        assert(h == d0 * o0 + d1 * o1 + d2 * o2);
        assert(h == o0 || h == -o0 || h == o1 || h == -o1 || h == o2 || h == -o2);
        lemma_small_square(o0);
        lemma_small_square(o1);
        lemma_small_square(o2);
        lemma_mul_bounded(o0, o0, 2 * lim, 2 * lim);
        lemma_mul_bounded(o1, o1, 2 * lim, 2 * lim);
        lemma_mul_bounded(o2, o2, 2 * lim, 2 * lim);
        assert((2 * lim) * (2 * lim) == 0x400_0000_0000) by (nonlinear_arith)
            requires
                lim == 0x10_0000,
        ;
        assert(o.dot_req(o));
        let oo = o.dot_spec(o) as int;
        assert(oo == o0 * o0 + o1 * o1 + o2 * o2);
        lemma_small_square(r);
        lemma_mul_bounded(r, r, lim, lim);
        assert(lim * lim == 0x100_0000_0000) by (nonlinear_arith)
            requires
                lim == 0x10_0000,
        ;
        let c = oo - r * r;
        assert(self.coeff_c(ray) == c);
        assert(h * h <= oo) by {
            assert(h == o0 || h == -o0 ==> h * h == o0 * o0) by (nonlinear_arith);
            assert(h == o1 || h == -o1 ==> h * h == o1 * o1) by (nonlinear_arith);
            assert(h == o2 || h == -o2 ==> h * h == o2 * o2) by (nonlinear_arith);
        }
        lemma_small_square(h);
        lemma_mul_sign(1, c);
        assert(self.coeff_h(ray) == h);
        assert(Self::coeff_a(ray).mul_req(self.coeff_c(ray)));
        assert(self.coeff_h(ray).mul_req(self.coeff_h(ray)));
        assert(self.discriminant(ray) == h * h - c);
    }

    /// For a tame sphere and ray that do not miss each other both roots are
    /// defined: they are the negated `h` less and plus the integer square root
    /// of the discriminant, which is at most `COORD_LIMIT`.
    pub proof fn lemma_tame_roots(&self, ray: Ray<i64>)
        requires
            self.tame(ray),
            !self.misses(ray),
        ensures
            self.discriminant_req(ray),
            self.near_root_req(ray),
            self.far_root_req(ray),
            self.near_root(ray) == -self.coeff_h(ray) - self.discriminant(ray).sqrt_spec(),
            self.far_root(ray) == -self.coeff_h(ray) + self.discriminant(ray).sqrt_spec(),
            is_isqrt(self.discriminant(ray) as int, self.discriminant(ray).sqrt_spec() as int),
            0 <= self.discriminant(ray).sqrt_spec() <= COORD_LIMIT,
    {
        let lim = COORD_LIMIT as int;
        self.lemma_tame_discriminant(ray);
        let disc = self.discriminant(ray) as int;
        let h = self.coeff_h(ray) as int;
        lemma_isqrt_exists(disc);
        let root = isqrt(disc);
        assert(root <= lim) by (nonlinear_arith)
            requires
                0 <= root,
                root * root <= disc,
                disc <= lim * lim,
                0 < lim,
        ;
        assert(self.discriminant(ray).sqrt_spec() == root);
        lemma_trunc_div_shrinks(-h - root, 1);
        lemma_trunc_div_shrinks(-h + root, 1);
    }

    /// For a tame sphere and ray that do not miss each other, the point at
    /// either root is defined and is not the center.
    proof fn lemma_tame_outward(&self, ray: Ray<i64>, t: i64)
        requires
            self.tame(ray),
            !self.misses(ray),
            t == self.near_root(ray) || t == self.far_root(ray),
        ensures
            ray.at_req(t),
            ray.at_spec(t).sub_req(self.center()),
            ray.at_spec(t).sub_spec(self.center()).bounded(5 * COORD_LIMIT),
            ray.at_spec(t).sub_spec(self.center()) != Vec3(0i64, 0i64, 0i64),
    {
        let lim = COORD_LIMIT as int;
        self.lemma_tame_roots(ray);
        self.lemma_tame_discriminant(ray);
        let d = ray.dir();
        let o = self.offset(ray);
        d.lemma_dot_exact(o);
        ray.pos().lemma_sub_exact(self.center());
        ray.lemma_at_defined(t, lim, 3 * lim);
        ray.lemma_at_distance(t);
        let p = ray.at_spec(t);
        assert(p.sub_req(self.center()));
        p.lemma_sub_exact(self.center());
        let out = p.sub_spec(self.center());
        assert(out.0 == o.0 + d.0 * t && out.1 == o.1 + d.1 * t && out.2 == o.2 + d.2 * t);
        lemma_mul_sign(d.0 as int, t as int);
        lemma_mul_sign(d.1 as int, t as int);
        lemma_mul_sign(d.2 as int, t as int);
        assert(out.bounded(5 * lim));
        if out == Vec3(0i64, 0i64, 0i64) {
            lemma_mul_sign(d.0 as int, o.0 as int);
            lemma_mul_sign(d.1 as int, o.1 as int);
            lemma_mul_sign(d.2 as int, o.2 as int);
            lemma_root_off_center(
                self.coeff_h(ray) as int,
                o.dot_int(o),
                self.radius() as int,
                self.discriminant(ray).sqrt_spec() as int,
                t as int,
                o.0 as int,
                o.1 as int,
                o.2 as int,
            );
        }
    }

    /// For a tame sphere and ray that do not miss each other, the record of the
    /// hit at either root is defined.
    proof fn lemma_tame_hit_at(&self, ray: Ray<i64>, t: i64)
        requires
            self.tame(ray),
            !self.misses(ray),
            t == self.near_root(ray) || t == self.far_root(ray),
        ensures
            self.hit_at_req(ray, t),
    {
        self.lemma_tame_outward(ray, t);
        let out = ray.at_spec(t).sub_spec(self.center());
        let lim = 5 * COORD_LIMIT;
        assert(3 * (lim * lim) <= i64::MAX) by (nonlinear_arith)
            requires
                lim == 0x50_0000,
        ;
        out.lemma_normalize_defined(lim);
        RayHit::lemma_new_defined(ray, t, out.normalize_spec());
    }

    /// For a tame sphere and ray every query is defined, whatever its bounds.
    pub proof fn lemma_tame_defined(&self, ray: Ray<i64>, min_dist: i64, max_dist: i64)
        requires
            self.tame(ray),
        ensures
            self.hit_req(ray, min_dist, max_dist),
    {
        self.lemma_tame_discriminant(ray);
        if !self.misses(ray) {
            self.lemma_tame_roots(ray);
            self.lemma_tame_hit_at(ray, self.near_root(ray));
            self.lemma_tame_hit_at(ray, self.far_root(ray));
        }
    }

    /// A tame sphere keeps to its answer when the upper bound comes down.
    pub proof fn lemma_tame_narrows(&self, ray: Ray<i64>, min_dist: i64, max_dist: i64)
        requires
            self.tame(ray),
        ensures
            narrows(*self, ray, min_dist, max_dist),
    {
        self.lemma_tame_discriminant(ray);
        if !self.misses(ray) {
            self.lemma_tame_roots(ray);
        }
        self.lemma_narrows(ray, min_dist, max_dist);
    }
}

} // verus!
