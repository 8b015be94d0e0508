//! The library over 64-bit floating point numbers.

use raycast::{Hit, Objects, Point, Ray, RayHit, Scalar, Sphere, Vec3};
use std::ops::{Add, Div, Mul, Neg, Sub};

/// A 64-bit float as a scalar of the library.
#[derive(Clone, Copy, Debug, PartialEq, PartialOrd)]
struct Real(f64);

impl Neg for Real {
    type Output = Real;

    fn neg(self) -> Real {
        Real(-self.0)
    }
}

impl Add for Real {
    type Output = Real;

    fn add(self, rhs: Real) -> Real {
        Real(self.0 + rhs.0)
    }
}

impl Sub for Real {
    type Output = Real;

    fn sub(self, rhs: Real) -> Real {
        Real(self.0 - rhs.0)
    }
}

impl Mul for Real {
    type Output = Real;

    fn mul(self, rhs: Real) -> Real {
        Real(self.0 * rhs.0)
    }
}

impl Div for Real {
    type Output = Real;

    fn div(self, rhs: Real) -> Real {
        Real(self.0 / rhs.0)
    }
}

impl Scalar for Real {
    fn zero() -> Real {
        Real(0.0)
    }

    fn sqrt(self) -> Real {
        Real(self.0.sqrt())
    }
}

const TOLERANCE: f64 = 1e-9;

fn vec(x: f64, y: f64, z: f64) -> Vec3<Real> {
    Vec3(Real(x), Real(y), Real(z))
}

fn close(a: Real, b: f64) -> bool {
    (a.0 - b).abs() < TOLERANCE
}

fn close_vec(a: Vec3<Real>, x: f64, y: f64, z: f64) -> bool {
    close(a.0, x) && close(a.1, y) && close(a.2, z)
}

fn same_bits(a: Real, b: Real) -> bool {
    a.0.to_bits() == b.0.to_bits()
}

fn same_vec_bits(a: Vec3<Real>, b: Vec3<Real>) -> bool {
    same_bits(a.0, b.0) && same_bits(a.1, b.1) && same_bits(a.2, b.2)
}

fn same_hit_bits(a: Option<RayHit<Real>>, b: Option<RayHit<Real>>) -> bool {
    match (a, b) {
        (None, None) => true,
        (Some(a), Some(b)) => {
            same_vec_bits(a.point(), b.point())
                && same_vec_bits(a.normal(), b.normal())
                && same_bits(a.dist(), b.dist())
                && a.outside() == b.outside()
        }
        _ => false,
    }
}

/// The sphere around `(0, 0, -1)` with radius `0.5`.
fn small_sphere() -> Sphere<Real> {
    Sphere::new(vec(0.0, 0.0, -1.0), Real(0.5))
}

#[test]
fn vector_new_keeps_components() {
    let v = Vec3::new(Real(1.5), Real(-2.0), Real(0.25));
    assert_eq!((v.0, v.1, v.2), (Real(1.5), Real(-2.0), Real(0.25)));
}

#[test]
fn vector_arithmetic_is_component_wise() {
    let a = vec(1.0, 2.0, 3.0);
    let b = vec(0.5, -4.0, 8.0);
    assert!(close_vec(a + b, 1.5, -2.0, 11.0));
    assert!(close_vec(a - b, 0.5, 6.0, -5.0));
    assert!(close_vec(-a, -1.0, -2.0, -3.0));
    assert!(close_vec(a * Real(2.0), 2.0, 4.0, 6.0));
    assert!(close_vec(b / Real(2.0), 0.25, -2.0, 4.0));
}

#[test]
fn vector_compound_assignment_matches_operators() {
    let a = vec(1.0, 2.0, 3.0);
    let b = vec(0.5, -4.0, 8.0);
    let mut v = a;
    v += b;
    assert!(same_vec_bits(v, a + b));
    v -= b;
    assert!(close_vec(v, 1.0, 2.0, 3.0));
    v *= Real(4.0);
    assert!(same_vec_bits(v, vec(4.0, 8.0, 12.0)));
    v /= Real(8.0);
    assert!(same_vec_bits(v, vec(0.5, 1.0, 1.5)));
}

#[test]
fn dot_and_cross_products() {
    let a = vec(1.0, 2.0, 3.0);
    let b = vec(4.0, -5.0, 6.0);
    assert_eq!(a.dot(&b), Real(12.0));
    assert!(close_vec(a.cross(&b), 27.0, 6.0, -13.0));
    let x = vec(1.0, 0.0, 0.0);
    let y = vec(0.0, 1.0, 0.0);
    assert!(close_vec(x.cross(&y), 0.0, 0.0, 1.0));
    assert_eq!(a.dot(&a.cross(&b)), Real(0.0));
}

#[test]
fn length_is_euclidean() {
    assert_eq!(vec(3.0, 4.0, 0.0).len(), Real(5.0));
    assert_eq!(vec(0.0, 0.0, 0.0).len(), Real(0.0));
    assert!(close(vec(1.0, 1.0, 1.0).len(), 3.0_f64.sqrt()));
}

#[test]
fn normalize_three_four_zero() {
    let n = vec(3.0, 4.0, 0.0).normalize();
    assert!(close_vec(n, 0.6, 0.8, 0.0));
    assert!(close(n.len(), 1.0));
}

#[test]
fn normalize_of_zero_vector_is_not_finite() {
    let n = vec(0.0, 0.0, 0.0).normalize();
    assert!(n.0 .0.is_nan() && n.1 .0.is_nan() && n.2 .0.is_nan());
}

#[test]
fn division_by_zero_gives_infinity() {
    let v = vec(1.0, -1.0, 2.0) / Real(0.0);
    assert_eq!(v.0 .0, f64::INFINITY);
    assert_eq!(v.1 .0, f64::NEG_INFINITY);
    assert_eq!(v.2 .0, f64::INFINITY);
}

#[test]
fn ray_stores_position_and_normalized_direction() {
    let ray = Ray::new(vec(1.0, 2.0, 3.0), vec(0.0, 3.0, 4.0));
    assert!(same_vec_bits(ray.pos(), vec(1.0, 2.0, 3.0)));
    assert!(close_vec(ray.dir(), 0.0, 0.6, 0.8));
    assert!(same_vec_bits(ray.dir(), vec(0.0, 3.0, 4.0).normalize()));
}

#[test]
fn ray_with_zero_direction_is_not_finite() {
    let ray = Ray::new(vec(1.0, 2.0, 3.0), vec(0.0, 0.0, 0.0));
    assert!(ray.dir().0 .0.is_nan());
    assert!(same_vec_bits(ray.pos(), vec(1.0, 2.0, 3.0)));
}

#[test]
fn ray_at_is_position_plus_scaled_direction() {
    let ray = Ray::new(vec(1.0, 2.0, 3.0), vec(0.0, 0.0, -2.0));
    assert!(close_vec(ray.at(Real(0.0)), 1.0, 2.0, 3.0));
    assert!(close_vec(ray.at(Real(2.5)), 1.0, 2.0, 0.5));
    assert!(close_vec(ray.at(Real(-4.0)), 1.0, 2.0, 7.0));
}

#[test]
fn ray_at_lies_at_distance_t_from_position() {
    let directions = [vec(1.0, 2.0, 3.0), vec(-3.0, 0.5, 0.0), vec(0.0, 0.0, -1.0)];
    let distances = [0.0, 0.5, 1.0, 7.25, -2.0, -1000.0];
    for dir in directions {
        let ray = Ray::new(vec(-1.0, 4.0, 2.0), dir);
        assert!(close(ray.dir().len(), 1.0));
        for t in distances {
            let offset = ray.at(Real(t)) - ray.pos();
            assert!((offset.len().0 - t.abs()).abs() < 1e-9 * (1.0 + t.abs()));
            let along = offset.dot(&ray.dir());
            assert!((along.0 - t).abs() < 1e-9 * (1.0 + t.abs()));
        }
    }
}

#[test]
fn hit_record_keeps_an_opposing_normal() {
    let ray = Ray::new(vec(0.0, 0.0, 0.0), vec(0.0, 0.0, -1.0));
    let hit = RayHit::new(ray, Real(2.0), vec(0.0, 0.0, 1.0));
    assert!(hit.outside());
    assert!(same_vec_bits(hit.normal(), vec(0.0, 0.0, 1.0)));
    assert_eq!(hit.dist(), Real(2.0));
    assert!(close_vec(hit.point(), 0.0, 0.0, -2.0));
}

#[test]
fn hit_record_flips_a_normal_along_the_ray() {
    let ray = Ray::new(vec(0.0, 0.0, 0.0), vec(0.0, 0.0, -1.0));
    let hit = RayHit::new(ray, Real(2.0), vec(0.0, 0.0, -1.0));
    assert!(!hit.outside());
    assert!(close_vec(hit.normal(), 0.0, 0.0, 1.0));
    assert!(same_vec_bits(hit.point(), ray.at(Real(2.0))));
}

#[test]
fn hit_record_flips_a_perpendicular_normal() {
    let ray = Ray::new(vec(0.0, 0.0, 0.0), vec(0.0, 0.0, -1.0));
    let hit = RayHit::new(ray, Real(1.0), vec(1.0, 0.0, 0.0));
    assert!(!hit.outside());
    assert!(close_vec(hit.normal(), -1.0, 0.0, 0.0));
}

#[test]
fn sphere_accessors() {
    let sphere = small_sphere();
    assert!(same_vec_bits(sphere.center(), vec(0.0, 0.0, -1.0)));
    assert_eq!(sphere.radius(), Real(0.5));
}

#[test]
fn sphere_hit_from_outside() {
    let ray = Ray::new(vec(0.0, 0.0, 0.0), vec(0.0, 0.0, -1.0));
    let hit = small_sphere().find_ray_hit(ray, Real(0.0), Real(f64::INFINITY)).unwrap();
    assert!(close(hit.dist(), 0.5));
    assert!(close_vec(hit.normal(), 0.0, 0.0, 1.0));
    assert!(close_vec(hit.point(), 0.0, 0.0, -0.5));
    assert!(hit.outside());
}

#[test]
fn sphere_hit_from_inside() {
    let directions = [
        vec(0.0, 0.0, -1.0),
        vec(0.0, 0.0, 1.0),
        vec(1.0, 0.0, 0.0),
        vec(1.0, 2.0, 3.0),
        vec(-0.3, 0.9, -0.1),
    ];
    for dir in directions {
        let ray = Ray::new(vec(0.0, 0.0, -1.0), dir);
        let hit = small_sphere().find_ray_hit(ray, Real(0.0), Real(f64::INFINITY)).unwrap();
        assert!(!hit.outside());
        assert!(close(hit.dist(), 0.5));
        assert!(hit.normal().dot(&ray.dir()) < Real(0.0));
        let back = -ray.dir();
        assert!(close_vec(hit.normal(), back.0 .0, back.1 .0, back.2 .0));
    }
}

#[test]
fn sphere_miss_has_negative_discriminant() {
    let ray = Ray::new(vec(0.0, 2.0, 0.0), vec(0.0, 0.0, -1.0));
    assert!(small_sphere().find_ray_hit(ray, Real(0.0), Real(f64::INFINITY)).is_none());
}

#[test]
fn sphere_behind_the_ray_is_not_hit() {
    let ray = Ray::new(vec(0.0, 0.0, 0.0), vec(0.0, 0.0, 1.0));
    assert!(small_sphere().find_ray_hit(ray, Real(0.0), Real(f64::INFINITY)).is_none());
    let hit = small_sphere().find_ray_hit(ray, Real(-10.0), Real(0.0)).unwrap();
    assert!(close(hit.dist(), -1.5));
}

#[test]
fn sphere_falls_back_to_the_far_root() {
    let ray = Ray::new(vec(0.0, 0.0, 0.0), vec(0.0, 0.0, -1.0));
    let hit = small_sphere().find_ray_hit(ray, Real(1.0), Real(2.0)).unwrap();
    assert!(close(hit.dist(), 1.5));
    assert!(!hit.outside());
    assert!(close_vec(hit.normal(), 0.0, 0.0, 1.0));
    assert!(close_vec(hit.point(), 0.0, 0.0, -1.5));
}

#[test]
fn sphere_with_both_roots_out_of_bounds_is_not_hit() {
    let ray = Ray::new(vec(0.0, 0.0, 0.0), vec(0.0, 0.0, -1.0));
    assert!(small_sphere().find_ray_hit(ray, Real(0.75), Real(1.25)).is_none());
    assert!(small_sphere().find_ray_hit(ray, Real(2.0), Real(9.0)).is_none());
    assert!(small_sphere().find_ray_hit(ray, Real(0.0), Real(0.25)).is_none());
}

#[test]
fn sphere_bounds_include_their_ends() {
    let ray = Ray::new(vec(0.0, 0.0, 0.0), vec(0.0, 0.0, -1.0));
    let sphere = small_sphere();
    let near = sphere.find_ray_hit(ray, Real(0.0), Real(f64::INFINITY)).unwrap().dist();
    let hit = sphere.find_ray_hit(ray, near, near).unwrap();
    assert!(same_bits(hit.dist(), near));
    assert!(hit.outside());
    let far = sphere.find_ray_hit(ray, Real(1.0), Real(f64::INFINITY)).unwrap().dist();
    let hit = sphere.find_ray_hit(ray, far, far).unwrap();
    assert!(same_bits(hit.dist(), far));
    assert!(!hit.outside());
}

#[test]
fn sphere_of_radius_zero_is_a_point() {
    let sphere = Sphere::new(vec(0.0, 0.0, -1.0), Real(0.0));
    let ray = Ray::new(vec(0.0, 0.0, 0.0), vec(0.0, 0.0, -1.0));
    let hit = sphere.find_ray_hit(ray, Real(0.0), Real(10.0)).unwrap();
    assert_eq!(hit.dist(), Real(1.0));
    let aside = Ray::new(vec(0.0, 0.0, 0.0), vec(0.0, 0.1, -1.0));
    assert!(sphere.find_ray_hit(aside, Real(0.0), Real(10.0)).is_none());
}

#[test]
fn sphere_query_is_repeatable() {
    let sphere = small_sphere();
    let rays = [
        Ray::new(vec(0.0, 0.0, 0.0), vec(0.1, 0.2, -1.0)),
        Ray::new(vec(0.0, 0.0, -1.0), vec(1.0, 2.0, 3.0)),
        Ray::new(vec(0.0, 2.0, 0.0), vec(0.0, 0.0, -1.0)),
    ];
    for ray in rays {
        let first = sphere.find_ray_hit(ray, Real(0.0), Real(f64::INFINITY));
        let second = sphere.find_ray_hit(ray, Real(0.0), Real(f64::INFINITY));
        assert!(same_hit_bits(first, second));
    }
}

#[test]
fn empty_objects_are_never_hit() {
    let objects: Objects<Sphere<Real>> = Objects::new();
    let ray = Ray::new(vec(0.0, 0.0, 0.0), vec(0.0, 0.0, -1.0));
    assert!(objects.find_ray_hit(ray, Real(0.0), Real(f64::INFINITY)).is_none());
}

#[test]
fn objects_missed_by_a_parallel_ray() {
    let mut objects = Objects::new();
    objects.add(Sphere::new(vec(0.0, 0.0, -1.0), Real(0.5)));
    objects.add(Sphere::new(vec(0.0, 0.0, -3.0), Real(1.0)));
    objects.add(Sphere::new(vec(0.0, 0.0, 4.0), Real(1.5)));
    let ray = Ray::new(vec(0.0, 2.0, 0.0), vec(0.0, 0.0, -1.0));
    assert!(objects.find_ray_hit(ray, Real(0.0), Real(f64::INFINITY)).is_none());
}

#[test]
fn objects_return_the_nearer_of_two_overlapping_spheres() {
    let front = Sphere::new(vec(0.0, 0.0, -1.0), Real(0.5));
    let back = Sphere::new(vec(0.0, 0.0, -1.25), Real(0.5));
    let ray = Ray::new(vec(0.0, 0.0, 0.0), vec(0.0, 0.0, -1.0));
    let front_hit = front.find_ray_hit(ray, Real(0.0), Real(f64::INFINITY)).unwrap();
    let back_hit = back.find_ray_hit(ray, Real(0.0), Real(f64::INFINITY)).unwrap();
    assert!(front_hit.dist() < back_hit.dist());

    let mut objects = Objects::new();
    objects.add(Sphere::new(vec(0.0, 0.0, -1.0), Real(0.5)));
    objects.add(Sphere::new(vec(0.0, 0.0, -1.25), Real(0.5)));
    let hit = objects.find_ray_hit(ray, Real(0.0), Real(f64::INFINITY));
    assert!(same_hit_bits(hit, Some(front_hit)));

    let mut reversed = Objects::new();
    reversed.add(Sphere::new(vec(0.0, 0.0, -1.25), Real(0.5)));
    reversed.add(Sphere::new(vec(0.0, 0.0, -1.0), Real(0.5)));
    let hit = reversed.find_ray_hit(ray, Real(0.0), Real(f64::INFINITY));
    assert!(same_hit_bits(hit, Some(front_hit)));
}

#[test]
fn objects_prefer_the_later_of_two_equally_near_shapes() {
    let mut objects = Objects::new();
    objects.add(Sphere::new(vec(0.0, 0.0, -2.0), Real(1.0)));
    objects.add(Sphere::new(vec(0.0, 0.0, -3.0), Real(2.0)));
    let ray = Ray::new(vec(0.0, 0.0, 0.0), vec(0.0, 0.0, -1.0));
    let hit = objects.find_ray_hit(ray, Real(0.0), Real(f64::INFINITY)).unwrap();
    assert_eq!(hit.dist(), Real(1.0));
    let probe = Ray::new(vec(0.0, 0.5, 0.0), vec(0.0, 0.0, -1.0));
    let first = Sphere::new(vec(0.0, 0.0, -2.0), Real(1.0));
    let second = Sphere::new(vec(0.0, 0.0, -3.0), Real(2.0));
    let first_hit = first.find_ray_hit(probe, Real(0.0), Real(f64::INFINITY)).unwrap();
    let second_hit = second.find_ray_hit(probe, Real(0.0), Real(f64::INFINITY)).unwrap();
    let nearer = if second_hit.dist() <= first_hit.dist() { second_hit } else { first_hit };
    let hit = objects.find_ray_hit(probe, Real(0.0), Real(f64::INFINITY));
    assert!(same_hit_bits(hit, Some(nearer)));
}

#[test]
fn objects_respect_the_bounds() {
    let mut objects = Objects::new();
    objects.add(Sphere::new(vec(0.0, 0.0, -1.0), Real(0.5)));
    objects.add(Sphere::new(vec(0.0, 0.0, -4.0), Real(1.0)));
    let ray = Ray::new(vec(0.0, 0.0, 0.0), vec(0.0, 0.0, -1.0));
    let hit = objects.find_ray_hit(ray, Real(2.0), Real(10.0)).unwrap();
    assert!(close(hit.dist(), 3.0));
    let hit = objects.find_ray_hit(ray, Real(0.0), Real(0.5)).unwrap();
    assert!(close(hit.dist(), 0.5));
    assert!(objects.find_ray_hit(ray, Real(5.5), Real(10.0)).is_none());
}

#[test]
fn objects_query_is_repeatable() {
    let mut objects = Objects::new();
    objects.add(Sphere::new(vec(0.3, 0.0, -1.0), Real(0.5)));
    objects.add(Sphere::new(vec(0.0, -100.5, -1.0), Real(100.0)));
    let ray = Ray::new(vec(0.0, 0.0, 0.0), vec(0.1, -0.2, -1.0));
    let first = objects.find_ray_hit(ray, Real(0.0), Real(f64::INFINITY));
    let second = objects.find_ray_hit(ray, Real(0.0), Real(f64::INFINITY));
    assert!(first.is_some());
    assert!(same_hit_bits(first, second));
}

#[test]
fn objects_can_be_cleared_and_filled_again() {
    let mut objects = Objects::new();
    objects.add(small_sphere());
    let ray = Ray::new(vec(0.0, 0.0, 0.0), vec(0.0, 0.0, -1.0));
    assert!(objects.find_ray_hit(ray, Real(0.0), Real(f64::INFINITY)).is_some());
    objects.clear();
    assert!(objects.find_ray_hit(ray, Real(0.0), Real(f64::INFINITY)).is_none());
    objects.add(Sphere::new(vec(0.0, 0.0, -5.0), Real(1.0)));
    let hit = objects.find_ray_hit(ray, Real(0.0), Real(f64::INFINITY)).unwrap();
    assert!(close(hit.dist(), 4.0));
}

#[test]
fn objects_hold_shapes_of_many_kinds() {
    let mut inner = Objects::new();
    inner.add(Sphere::new(vec(0.0, 0.0, -6.0), Real(1.0)));
    inner.add(Sphere::new(vec(0.0, 0.0, -3.0), Real(1.0)));
    let mut scene: Objects<Box<dyn Hit<Real>>> = Objects::new();
    scene.add(Box::new(Sphere::new(vec(0.0, 0.0, -9.0), Real(1.0))));
    scene.add(Box::new(inner));
    let ray = Ray::new(vec(0.0, 0.0, 0.0), vec(0.0, 0.0, -1.0));
    let hit = scene.find_ray_hit(ray, Real(0.0), Real(f64::INFINITY)).unwrap();
    assert!(close(hit.dist(), 2.0));
    let hit = scene.find_ray_hit(ray, Real(7.5), Real(f64::INFINITY)).unwrap();
    assert!(close(hit.dist(), 8.0));
}

#[test]
fn point_is_a_vector() {
    let p: Point<Real> = vec(1.0, 2.0, 3.0);
    let q: Vec3<Real> = p;
    assert!(same_vec_bits(p, q));
}
