//! Collections of shapes, searched for the nearest hit.
//!
//! A collection asks its shapes one after the other, in the order in which they
//! were added. Each is asked for a hit no farther than the closest found so far,
//! so a later shape can only report a hit that is at least as near.

use crate::ray::{kept, narrows, Hit, Ray, RayHit};
use crate::scalar::Scalar;
use crate::sphere::Sphere;
use vstd::prelude::*;

verus! {

/// An ordered collection of shapes, each owned by the collection. It is itself
/// a shape: a query returns the nearest hit among all that it holds.
///
/// The shapes are of one type `S`. That type may be a collection again, or
/// `Box<dyn Hit<T>>` for shapes of many kinds.
pub struct Objects<S>(Vec<S>);

impl<S> View for Objects<S> {
    type V = Seq<S>;

    /// The shapes, in the order in which they were added.
    closed spec fn view(&self) -> Seq<S> {
        self.0@
    }
}

impl<S> Objects<S> {
    /// Builds an empty collection.
    pub fn new() -> (objects: Self)
        ensures
            objects@ == Seq::<S>::empty(),
    {
        Self(Vec::new())
    }

    /// Appends `object`, taking ownership of it.
    pub fn add(&mut self, object: S)
        ensures
            final(self)@ == old(self)@.push(object),
    {
        self.0.push(object)
    }

    /// Removes every shape.
    pub fn clear(&mut self)
        ensures
            final(self)@ == Seq::<S>::empty(),
    {
        self.0.clear()
    }
}

/// The upper bound handed to the next shape: the distance of the closest hit so
/// far, or `max_dist` while there is none.
pub open spec fn bound<T: Scalar>(closest: Option<RayHit<T>>, max_dist: T) -> T {
    match closest {
        Some(hit) => hit.dist(),
        None => max_dist,
    }
}

/// The closest hit after the first `n` of `shapes` have been asked, each within
/// `min_dist` to the bound left by those before it. A shape that reports a hit
/// replaces the closest so far.
pub open spec fn scan<T: Scalar, S: Hit<T>>(
    shapes: Seq<S>,
    ray: Ray<T>,
    min_dist: T,
    max_dist: T,
    n: nat,
) -> Option<RayHit<T>>
    decreases n,
{
    if n == 0 {
        None
    } else {
        let closest = scan(shapes, ray, min_dist, max_dist, (n - 1) as nat);
        match shapes[n - 1].hit_spec(ray, min_dist, bound(closest, max_dist)) {
            Some(hit) => Some(hit),
            None => closest,
        }
    }
}

/// Whether each of the first `n` of `shapes` can be asked its narrowed query.
pub open spec fn scan_req<T: Scalar, S: Hit<T>>(
    shapes: Seq<S>,
    ray: Ray<T>,
    min_dist: T,
    max_dist: T,
    n: nat,
) -> bool
    decreases n,
{
    n > 0 ==> {
        &&& scan_req(shapes, ray, min_dist, max_dist, (n - 1) as nat)
        &&& shapes[n - 1].hit_req(
            ray,
            min_dist,
            bound(scan(shapes, ray, min_dist, max_dist, (n - 1) as nat), max_dist),
        )
    }
}

/// A scan that may ask the first `n` shapes may ask the first `m`, for any `m`
/// up to `n`.
pub proof fn lemma_scan_req_prefix<T: Scalar, S: Hit<T>>(
    shapes: Seq<S>,
    ray: Ray<T>,
    min_dist: T,
    max_dist: T,
    n: nat,
    m: nat,
)
    requires
        scan_req(shapes, ray, min_dist, max_dist, n),
        m <= n,
    ensures
        scan_req(shapes, ray, min_dist, max_dist, m),
    decreases n,
{
    if m < n {
        lemma_scan_req_prefix(shapes, ray, min_dist, max_dist, (n - 1) as nat, m);
    }
}

impl<T: Scalar, S: Hit<T>> Hit<T> for Objects<S> {
    /// A query is defined when every shape can be asked its narrowed query.
    open spec fn hit_req(&self, ray: Ray<T>, min_dist: T, max_dist: T) -> bool {
        scan_req(self@, ray, min_dist, max_dist, self@.len())
    }

    /// The closest hit after all shapes have been asked, in the order in which
    /// they were added.
    open spec fn hit_spec(&self, ray: Ray<T>, min_dist: T, max_dist: T) -> Option<RayHit<T>> {
        scan(self@, ray, min_dist, max_dist, self@.len())
    }

    fn find_ray_hit(&self, ray: Ray<T>, min_dist: T, max_dist: T) -> (hit: Option<RayHit<T>>) {
        let mut closest_hit: Option<RayHit<T>> = None;

        let mut i: usize = 0;
        while i < self.0.len()
            invariant
                i <= self@.len(),
                self@ == self.0@,
                scan_req(self@, ray, min_dist, max_dist, self@.len()),
                closest_hit == scan(self@, ray, min_dist, max_dist, i as nat),
            decreases self@.len() - i,
        {
            let closest_dist = match closest_hit {
                Some(hit) => hit.dist(),
                None => max_dist,
            };
            proof {
                lemma_scan_req_prefix(
                    self@,
                    ray,
                    min_dist,
                    max_dist,
                    self@.len(),
                    (i + 1) as nat,
                );
            }
            if let Some(hit) = self.0[i].find_ray_hit(ray, min_dist, closest_dist) {
                closest_hit = Some(hit);
            }
            i += 1;
        }

        closest_hit
    }
}

/// Where none of the first `n` shapes reports a hit within the bounds, the scan
/// of them reports none.
pub proof fn lemma_scan_all_miss<T: Scalar, S: Hit<T>>(
    shapes: Seq<S>,
    ray: Ray<T>,
    min_dist: T,
    max_dist: T,
    n: nat,
)
    requires
        n <= shapes.len(),
        forall|i: int| 0 <= i < n ==> shapes[i].hit_spec(ray, min_dist, max_dist) is None,
    ensures
        scan(shapes, ray, min_dist, max_dist, n) is None,
    decreases n,
{
    if n > 0 {
        lemma_scan_all_miss(shapes, ray, min_dist, max_dist, (n - 1) as nat);
    }
}

impl<S> Objects<S> {
    /// A ray that every shape misses within the bounds, the collection misses.
    pub proof fn lemma_all_miss<T: Scalar>(&self, ray: Ray<T>, min_dist: T, max_dist: T) where
        S: Hit<T>,

        requires
            forall|i: int|
                0 <= i < self@.len() ==> self@[i].hit_spec(ray, min_dist, max_dist) is None,
        ensures
            self.hit_spec(ray, min_dist, max_dist) is None,
    {
        lemma_scan_all_miss(self@, ray, min_dist, max_dist, self@.len());
    }
}

/// Whether `hit` is at least as near as `other`, where there is an `other`; and
/// strictly nearer, if `strictly` is set.
pub open spec fn nearer(hit: RayHit<i64>, other: Option<RayHit<i64>>, strictly: bool) -> bool {
    match other {
        Some(o) => if strictly {
            hit.dist() < o.dist()
        } else {
            hit.dist() <= o.dist()
        },
        None => true,
    }
}

/// Whether `found` is the nearest of the hits that the first `n` of `shapes`
/// report, each asked by itself within `min_dist` to `max_dist`: none, where no
/// shape reports a hit; else a hit that one of the shapes reports, not beyond
/// `max_dist`, at least as near as the hit of every other shape, and strictly
/// nearer than the hit of every shape that comes after its own. So of several
/// hits at the least distance, it is that of the last shape.
pub open spec fn nearest_of<S: Hit<i64>>(
    found: Option<RayHit<i64>>,
    shapes: Seq<S>,
    ray: Ray<i64>,
    min_dist: i64,
    max_dist: i64,
    n: nat,
) -> bool {
    match found {
        None => forall|i: int| 0 <= i < n ==> shapes[i].hit_spec(ray, min_dist, max_dist) is None,
        Some(hit) => {
            &&& hit.dist() <= max_dist
            &&& forall|i: int|
                0 <= i < n ==> nearer(hit, shapes[i].hit_spec(ray, min_dist, max_dist), false)
            &&& exists|k: int|
                {
                    &&& 0 <= k < n
                    &&& shapes[k].hit_spec(ray, min_dist, max_dist) == Some(hit)
                    &&& forall|i: int|
                        k < i < n ==> nearer(
                            hit,
                            shapes[i].hit_spec(ray, min_dist, max_dist),
                            true,
                        )
                }
        },
    }
}

/// The scan of the first `n` shapes reports the nearest of the hits that they
/// report one by one, where each shape keeps to its answer when the upper bound
/// comes down.
pub proof fn lemma_scan_nearest<S: Hit<i64>>(
    shapes: Seq<S>,
    ray: Ray<i64>,
    min_dist: i64,
    max_dist: i64,
    n: nat,
)
    requires
        n <= shapes.len(),
        forall|i: int| 0 <= i < n ==> narrows(shapes[i], ray, min_dist, max_dist),
    ensures
        nearest_of(
            scan(shapes, ray, min_dist, max_dist, n),
            shapes,
            ray,
            min_dist,
            max_dist,
            n,
        ),
    decreases n,
{
    if n > 0 {
        let m = (n - 1) as nat;
        lemma_scan_nearest(shapes, ray, min_dist, max_dist, m);
        let closest = scan(shapes, ray, min_dist, max_dist, m);
        let limit = bound(closest, max_dist);
        let full = shapes[m as int].hit_spec(ray, min_dist, max_dist);
        assert(narrows(shapes[m as int], ray, min_dist, max_dist));
        assert(shapes[m as int].hit_spec(ray, min_dist, limit) == kept(full, limit));
        assert(shapes[m as int].hit_spec(ray, min_dist, max_dist) == kept(full, max_dist));
        match kept(full, limit) {
            Some(hit) => {
                assert(shapes[m as int].hit_spec(ray, min_dist, max_dist) == Some(hit));
            },
            None => {
                match closest {
                    Some(hit) => {
                        let k = choose|k: int|
                            {
                                &&& 0 <= k < m
                                &&& shapes[k].hit_spec(ray, min_dist, max_dist) == Some(hit)
                                &&& forall|i: int|
                                    k < i < m ==> nearer(
                                        hit,
                                        shapes[i].hit_spec(ray, min_dist, max_dist),
                                        true,
                                    )
                            };
                        assert forall|i: int| k < i < n implies nearer(
                            hit,
                            shapes[i].hit_spec(ray, min_dist, max_dist),
                            true,
                        ) by {}
                    },
                    None => {},
                }
            },
        }
    }
}

/// A scan keeps to its answer when the upper bound comes down, where each shape
/// does: with a bound not above `max_dist` in the place of `max_dist`, it reports
/// the same hit where that is not beyond the bound, and none otherwise.
pub proof fn lemma_scan_narrows<S: Hit<i64>>(
    shapes: Seq<S>,
    ray: Ray<i64>,
    min_dist: i64,
    max_dist: i64,
    limit: i64,
    n: nat,
)
    requires
        n <= shapes.len(),
        limit <= max_dist,
        forall|i: int| 0 <= i < n ==> narrows(shapes[i], ray, min_dist, max_dist),
    ensures
        scan(shapes, ray, min_dist, limit, n) == kept(
            scan(shapes, ray, min_dist, max_dist, n),
            limit,
        ),
    decreases n,
{
    if n > 0 {
        let m = (n - 1) as nat;
        lemma_scan_narrows(shapes, ray, min_dist, max_dist, limit, m);
        lemma_scan_nearest(shapes, ray, min_dist, max_dist, m);
        let wide = scan(shapes, ray, min_dist, max_dist, m);
        let tight = scan(shapes, ray, min_dist, limit, m);
        let full = shapes[m as int].hit_spec(ray, min_dist, max_dist);
        assert(narrows(shapes[m as int], ray, min_dist, max_dist));
        assert(shapes[m as int].hit_spec(ray, min_dist, bound(wide, max_dist)) == kept(
            full,
            bound(wide, max_dist),
        ));
        assert(shapes[m as int].hit_spec(ray, min_dist, bound(tight, limit)) == kept(
            full,
            bound(tight, limit),
        ));
    }
}

/// Exact statements for collections of shapes over 64-bit integers.
impl<S: Hit<i64>> Objects<S> {
    /// Of the hits that its shapes report one by one, a collection reports the
    /// nearest; of several at the same distance, that of the shape added last;
    /// and none only where no shape reports one. This holds where each shape
    /// keeps to its answer when the upper bound comes down.
    pub proof fn lemma_nearest_hit(&self, ray: Ray<i64>, min_dist: i64, max_dist: i64)
        requires
            forall|i: int| 0 <= i < self@.len() ==> narrows(self@[i], ray, min_dist, max_dist),
        ensures
            nearest_of(
                self.hit_spec(ray, min_dist, max_dist),
                self@,
                ray,
                min_dist,
                max_dist,
                self@.len(),
            ),
    {
        lemma_scan_nearest(self@, ray, min_dist, max_dist, self@.len());
    }

    /// A collection keeps to its answer when the upper bound comes down, where
    /// each of its shapes does. So a collection may be a shape of another
    /// collection, and the nearest hit is found through both.
    pub proof fn lemma_narrows(&self, ray: Ray<i64>, min_dist: i64, max_dist: i64)
        requires
            forall|i: int| 0 <= i < self@.len() ==> narrows(self@[i], ray, min_dist, max_dist),
        ensures
            narrows(*self, ray, min_dist, max_dist),
    {
        assert forall|limit: i64| limit <= max_dist implies #[trigger] self.hit_spec(
            ray,
            min_dist,
            limit,
        ) == kept(self.hit_spec(ray, min_dist, max_dist), limit) by {
            lemma_scan_narrows(self@, ray, min_dist, max_dist, limit, self@.len());
        }
    }
}

/// A scan of tame spheres is defined, whatever its bounds and however many of
/// the spheres it asks.
pub proof fn lemma_scan_tame(
    shapes: Seq<Sphere<i64>>,
    ray: Ray<i64>,
    min_dist: i64,
    max_dist: i64,
    n: nat,
)
    requires
        n <= shapes.len(),
        forall|i: int| 0 <= i < n ==> shapes[i].tame(ray),
    ensures
        scan_req(shapes, ray, min_dist, max_dist, n),
    decreases n,
{
    if n > 0 {
        let m = (n - 1) as nat;
        lemma_scan_tame(shapes, ray, min_dist, max_dist, m);
        shapes[m as int].lemma_tame_defined(
            ray,
            min_dist,
            bound(scan(shapes, ray, min_dist, max_dist, m), max_dist),
        );
    }
}

/// Exact statements for collections of spheres over 64-bit integers.
impl Objects<Sphere<i64>> {
    /// Whether every sphere of the collection is tame for `ray`.
    pub open spec fn tame(&self, ray: Ray<i64>) -> bool {
        forall|i: int| 0 <= i < self@.len() ==> (#[trigger] self@[i]).tame(ray)
    }

    /// For tame spheres every query of the collection is defined.
    pub proof fn lemma_tame_defined(&self, ray: Ray<i64>, min_dist: i64, max_dist: i64)
        requires
            self.tame(ray),
        ensures
            self.hit_req(ray, min_dist, max_dist),
    {
        lemma_scan_tame(self@, ray, min_dist, max_dist, self@.len());
    }

    /// Of the hits that tame spheres report one by one, the collection reports
    /// the nearest; of several at the same distance, that of the sphere added
    /// last; and none only where no sphere reports one.
    pub proof fn lemma_tame_nearest(&self, ray: Ray<i64>, min_dist: i64, max_dist: i64)
        requires
            self.tame(ray),
        ensures
            nearest_of(
                self.hit_spec(ray, min_dist, max_dist),
                self@,
                ray,
                min_dist,
                max_dist,
                self@.len(),
            ),
    {
        assert forall|i: int| 0 <= i < self@.len() implies narrows(
            self@[i],
            ray,
            min_dist,
            max_dist,
        ) by {
            self@[i].lemma_tame_narrows(ray, min_dist, max_dist);
        }
        self.lemma_nearest_hit(ray, min_dist, max_dist);
    }
}

} // verus!
