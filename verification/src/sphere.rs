//! The sphere, the one surface of this library.
use vstd::prelude::*;
use crate::hitable::{HitRecord, Hitable};
use crate::interval::Interval;
use crate::ray::Ray;
use crate::scalar::{Scalar, ZERO};
use crate::vec3::Vec3;

verus! {

/// A sphere. The radius is meant to be positive; nothing checks it.
#[derive(Clone, Copy, Debug)]
pub struct Sphere {
    pub center: Vec3,
    pub radius: Scalar,
}

impl Sphere {
    /// A quarter of the discriminant of the quadratic in the ray's
    /// parameter, `|O + tD - C|^2 = r^2`, in its half-angle form.
    pub open spec fn discriminant_spec(self, r: Ray) -> Scalar {
        let oc = r.origin.sub_spec(self.center);
        let a = r.direction.length_squared_spec();
        let half_b = Vec3::dot_spec(oc, r.direction);
        let c = oc.length_squared_spec().sub_spec(self.radius.mul_spec(self.radius));
        half_b.mul_spec(half_b).sub_spec(a.mul_spec(c))
    }

    /// The smaller root of the quadratic: where the ray enters the sphere.
    pub open spec fn near_root_spec(self, r: Ray) -> Scalar {
        let oc = r.origin.sub_spec(self.center);
        let a = r.direction.length_squared_spec();
        let half_b = Vec3::dot_spec(oc, r.direction);
        half_b.neg_spec().sub_spec(self.discriminant_spec(r).sqrt_spec()).div_spec(a)
    }

    /// The larger root of the quadratic: where the ray leaves the sphere.
    pub open spec fn far_root_spec(self, r: Ray) -> Scalar {
        let oc = r.origin.sub_spec(self.center);
        let a = r.direction.length_squared_spec();
        let half_b = Vec3::dot_spec(oc, r.direction);
        half_b.neg_spec().add_spec(self.discriminant_spec(r).sqrt_spec()).div_spec(a)
    }

    /// The record of the hit at the root `t`: the point of the ray there,
    /// and the normal from the centre through it, turned against the ray.
    pub open spec fn record_spec(self, r: Ray, t: Scalar) -> HitRecord {
        let p = r.at_spec(t);
        let outward_normal = p.sub_spec(self.center).div_spec(self.radius);
        HitRecord { p, normal: Vec3::zero_spec(), t, front_face: false }.face_normal_spec(
            r,
            outward_normal,
        )
    }

    /// The sphere around `c` with radius `r`.
    pub fn new(c: Vec3, r: Scalar) -> (s: Sphere)
        ensures
            s == (Sphere { center: c, radius: r }),
    {
        Sphere { center: c, radius: r }
    }
}

impl Hitable for Sphere {
    /// No hit where the discriminant is below zero. Else the near root
    /// where it lies strictly inside the range, else the far root where
    /// that one does, else no hit.
    open spec fn hit_spec(&self, r: Ray, ray_t: Interval) -> Option<HitRecord> {
        if self.discriminant_spec(r).lt_spec(Scalar::lit(ZERO)) {
            None
        } else if ray_t.surrounds_spec(self.near_root_spec(r)) {
            Some(self.record_spec(r, self.near_root_spec(r)))
        } else if ray_t.surrounds_spec(self.far_root_spec(r)) {
            Some(self.record_spec(r, self.far_root_spec(r)))
        } else {
            None
        }
    }

    fn hit(&self, r: &Ray, ray_t: &Interval) -> (res: Option<HitRecord>) {
        let oc = r.origin() - self.center;
        let a = r.direction().length_squared();
        let half_b = Vec3::dot(&oc, &r.direction());
        let c = oc.length_squared() - self.radius * self.radius;

        let discriminant = half_b * half_b - a * c;
        if discriminant < Scalar::zero() {
            return None;
        }
        let sqrtd = discriminant.sqrt();

        // Find the nearest root that lies in the acceptable range.
        let mut root = (half_b.neg() - sqrtd) / a;
        if !ray_t.surrounds(root) {
            root = (half_b.neg() + sqrtd) / a;
            if !ray_t.surrounds(root) {
                return None;
            }
        }
        let p = r.at(root);
        let mut rec = HitRecord { p, normal: Vec3::new(), t: root, front_face: false };
        let outward_normal = (p - self.center) / self.radius;
        rec.set_face_normal(r, &outward_normal);
        Some(rec)
    }

    proof fn lemma_hit_within(&self, r: Ray, ray_t: Interval) {
    }

    proof fn lemma_hit_narrowed(&self, r: Ray, ray_t: Interval, max: Scalar) {
    }
}

} // verus!
