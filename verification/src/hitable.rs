//! What a ray can hit: the record of a hit, the contract of a surface, and
//! the list of surfaces that makes a scene.
use vstd::prelude::*;
use crate::interval::Interval;
use crate::ray::Ray;
use crate::scalar::{Scalar, ZERO};
use crate::vec3::Vec3;

verus! {

/// Where and how a ray met a surface.
#[derive(Clone, Copy, Debug)]
pub struct HitRecord {
    /// The point that was hit.
    pub p: Vec3,
    /// The surface normal at that point, turned against the ray.
    pub normal: Vec3,
    /// The parameter of the ray at that point.
    pub t: Scalar,
    /// Whether the ray came from outside the surface.
    pub front_face: bool,
}

impl HitRecord {
    /// Whether a ray meets a surface with the given outward normal from
    /// outside: the two point against each other.
    pub open spec fn faces_front(r: Ray, outward_normal: Vec3) -> bool {
        Vec3::dot_spec(r.direction, outward_normal).lt_spec(Scalar::lit(ZERO))
    }

    /// The record with its face and normal set for a ray and an outward
    /// normal: the normal is kept where the ray comes from outside, and
    /// turned round where it comes from inside.
    pub open spec fn face_normal_spec(self, r: Ray, outward_normal: Vec3) -> HitRecord {
        HitRecord {
            p: self.p,
            t: self.t,
            front_face: HitRecord::faces_front(r, outward_normal),
            normal: if HitRecord::faces_front(r, outward_normal) {
                outward_normal
            } else {
                outward_normal.neg_spec()
            },
        }
    }

    /// Sets the face and the normal of the record for the ray that hit and the
    /// outward normal of the surface at the hit.
    pub fn set_face_normal(&mut self, r: &Ray, outward_normal: &Vec3)
        ensures
            *final(self) == old(self).face_normal_spec(*r, *outward_normal),
    {
        self.front_face = Vec3::dot(&r.direction(), outward_normal) < Scalar::zero();
        self.normal = if self.front_face {
            *outward_normal
        } else {
            outward_normal.neg()
        };
    }
}

/// A surface that a ray can hit.
///
/// A hit is a function of the surface, the ray and the range of accepted
/// parameters, and the two laws below bind every surface: the scene relies
/// on them to find the nearest hit by narrowing the range as it goes.
pub trait Hitable {
    /// The hit of `r` on this surface with a parameter inside `ray_t`, if
    /// there is one.
    spec fn hit_spec(&self, r: Ray, ray_t: Interval) -> Option<HitRecord>;

    fn hit(&self, r: &Ray, ray_t: &Interval) -> (res: Option<HitRecord>)
        ensures
            res == self.hit_spec(*r, *ray_t),
    ;

    /// A hit has its parameter strictly inside the range.
    proof fn lemma_hit_within(&self, r: Ray, ray_t: Interval)
        ensures
            self.hit_spec(r, ray_t) matches Some(rec) ==> ray_t.surrounds_spec(rec.t),
    ;

    /// Lowering the upper end of the range to a bound still above a hit
    /// leaves that hit as it is.
    proof fn lemma_hit_narrowed(&self, r: Ray, ray_t: Interval, max: Scalar)
        requires
            max.le_spec(ray_t.max),
            self.hit_spec(r, ray_t) matches Some(rec) && rec.t.lt_spec(max),
        ensures
            self.hit_spec(r, Interval { min: ray_t.min, max }) == self.hit_spec(r, ray_t),
    ;
}

/// The surfaces of a scene, in the order in which they were added.
pub struct HitableList<T: Hitable> {
    pub objects: Vec<T>,
}

impl<T: Hitable> HitableList<T> {
    /// The upper end of the range in which the next surface is tried: the
    /// parameter of the best hit so far, or the end of the whole range.
    pub open spec fn closest_so_far(best: Option<HitRecord>, ray_t: Interval) -> Scalar {
        match best {
            Some(rec) => rec.t,
            None => ray_t.max,
        }
    }

    /// The best hit among the first `n` surfaces: each surface is tried in
    /// the range that ends at the best hit before it, so that a later
    /// surface takes over only where it is strictly nearer.
    pub open spec fn hit_upto(objects: Seq<T>, n: int, r: Ray, ray_t: Interval) -> Option<
        HitRecord,
    >
        decreases n,
    {
        if n <= 0 {
            None
        } else {
            let best = Self::hit_upto(objects, n - 1, r, ray_t);
            let narrowed = Interval { min: ray_t.min, max: Self::closest_so_far(best, ray_t) };
            match objects[n - 1].hit_spec(r, narrowed) {
                Some(rec) => Some(rec),
                None => best,
            }
        }
    }

    /// The nearest hit of `r` on the scene with a parameter inside `ray_t`.
    pub open spec fn hit_spec(&self, r: Ray, ray_t: Interval) -> Option<HitRecord> {
        Self::hit_upto(self.objects@, self.objects@.len() as int, r, ray_t)
    }

    /// A scene without surfaces.
    pub fn new() -> (r: Self)
        ensures
            r.objects@ == Seq::<T>::empty(),
    {
        Self { objects: Vec::new() }
    }

    /// Removes every surface.
    pub fn clear(&mut self)
        ensures
            final(self).objects@ == Seq::<T>::empty(),
    {
        self.objects.clear();
    }

    /// Adds a surface behind those that are there.
    pub fn add(&mut self, object: T)
        ensures
            final(self).objects@ == old(self).objects@.push(object),
    {
        self.objects.push(object);
    }

    /// The nearest hit of `r` on the scene with a parameter inside `ray_t`:
    /// the surfaces are tried in their order, each in the range that ends at
    /// the best hit so far.
    pub fn hit(&self, r: &Ray, ray_t: &Interval) -> (res: Option<HitRecord>)
        ensures
            res == self.hit_spec(*r, *ray_t),
    {
        let mut best: Option<HitRecord> = None;
        let mut closest_so_far = ray_t.max;
        let mut i: usize = 0;
        while i < self.objects.len()
            invariant
                i <= self.objects@.len(),
                best == Self::hit_upto(self.objects@, i as int, *r, *ray_t),
                closest_so_far == Self::closest_so_far(best, *ray_t),
            decreases self.objects@.len() - i,
        {
            let narrowed = Interval::with_min_max(ray_t.min, closest_so_far);
            match self.objects[i].hit(r, &narrowed) {
                Some(rec) => {
                    closest_so_far = rec.t;
                    best = Some(rec);
                },
                None => {},
            }
            i = i + 1;
        }
        best
    }
}

/// What the scan has found so far lies inside the range.
pub proof fn lemma_scene_hit_within<T: Hitable>(objects: Seq<T>, n: int, r: Ray, ray_t: Interval)
    requires
        0 <= n <= objects.len(),
    ensures
        HitableList::<T>::hit_upto(objects, n, r, ray_t) matches Some(rec) ==> ray_t.surrounds_spec(
            rec.t,
        ),
    decreases n,
{
    if n > 0 {
        lemma_scene_hit_within(objects, n - 1, r, ray_t);
        let best = HitableList::<T>::hit_upto(objects, n - 1, r, ray_t);
        let narrowed = Interval {
            min: ray_t.min,
            max: HitableList::<T>::closest_so_far(best, ray_t),
        };
        objects[n - 1].lemma_hit_within(r, narrowed);
    }
}

/// The scan keeps the nearest: whatever one of the first `n` surfaces
/// answers when asked alone, the scan has found a hit that is no farther.
pub proof fn lemma_scene_hit_nearest<T: Hitable>(
    objects: Seq<T>,
    n: int,
    i: int,
    r: Ray,
    ray_t: Interval,
)
    requires
        0 <= i < n <= objects.len(),
        objects[i].hit_spec(r, ray_t) is Some,
    ensures
        HitableList::<T>::hit_upto(objects, n, r, ray_t) matches Some(rec) && rec.t.le_spec(
            objects[i].hit_spec(r, ray_t)->0.t,
        ),
    decreases n,
{
    let own = objects[i].hit_spec(r, ray_t)->0;
    objects[i].lemma_hit_within(r, ray_t);
    let before = HitableList::<T>::hit_upto(objects, n - 1, r, ray_t);
    let bound = HitableList::<T>::closest_so_far(before, ray_t);
    let narrowed = Interval { min: ray_t.min, max: bound };
    let last = objects[n - 1].hit_spec(r, narrowed);
    lemma_scene_hit_within(objects, n - 1, r, ray_t);
    objects[n - 1].lemma_hit_within(r, narrowed);
    if i < n - 1 {
        lemma_scene_hit_nearest(objects, n - 1, i, r, ray_t);
    } else {
        if own.t.lt_spec(bound) {
            objects[i].lemma_hit_narrowed(r, ray_t, bound);
        }
    }
}

/// Of all the surfaces of a scene, the one hit nearest is the one reported:
/// no surface, asked alone, answers with a smaller parameter.
pub proof fn lemma_closest_hit_wins<T: Hitable>(
    scene: &HitableList<T>,
    i: int,
    r: Ray,
    ray_t: Interval,
)
    requires
        0 <= i < scene.objects@.len(),
        scene.objects@[i].hit_spec(r, ray_t) is Some,
    ensures
        scene.hit_spec(r, ray_t) matches Some(rec) && rec.t.le_spec(
            scene.objects@[i].hit_spec(r, ray_t)->0.t,
        ),
{
    lemma_scene_hit_nearest(scene.objects@, scene.objects@.len() as int, i, r, ray_t);
}

/// A scene without surfaces is never hit.
pub proof fn lemma_empty_scene<T: Hitable>(scene: &HitableList<T>, r: Ray, ray_t: Interval)
    requires
        scene.objects@.len() == 0,
    ensures
        scene.hit_spec(r, ray_t) is None,
{
}

} // verus!
