//! Rays, spheres and lists of surfaces.
use raytracer::hitable::{HitRecord, Hitable, HitableList};
use raytracer::interval::Interval;
use raytracer::ray::Ray;
use raytracer::scalar::Scalar;
use raytracer::sphere::Sphere;
use raytracer::vec3::Vec3;

fn s(x: f32) -> Scalar {
    Scalar::from_bits(x.to_bits())
}

fn f(x: Scalar) -> f32 {
    f32::from_bits(x.to_bits())
}

fn v(x: f32, y: f32, z: f32) -> Vec3 {
    Vec3::with_position(s(x), s(y), s(z))
}

fn a(v: &Vec3) -> [f32; 3] {
    [f(v.x()), f(v.y()), f(v.z())]
}

fn ray(o: [f32; 3], d: [f32; 3]) -> Ray {
    Ray::new(&v(o[0], o[1], o[2]), &v(d[0], d[1], d[2]))
}

fn forward() -> Interval {
    Interval::with_min_max(s(0.0), s(f32::INFINITY))
}

fn close(x: f32, y: f32) -> bool {
    (x - y).abs() < 1e-5
}

/// The sphere's hit test, written out on the machine's binary32.
fn reference_hit(c: [f32; 3], radius: f32, o: [f32; 3], d: [f32; 3], lo: f32, hi: f32) -> Option<(f32, [f32; 3], [f32; 3], bool)> {
    let oc = [o[0] - c[0], o[1] - c[1], o[2] - c[2]];
    let a = d[0] * d[0] + d[1] * d[1] + d[2] * d[2];
    let half_b = oc[0] * d[0] + oc[1] * d[1] + oc[2] * d[2];
    let cc = (oc[0] * oc[0] + oc[1] * oc[1] + oc[2] * oc[2]) - radius * radius;
    let discriminant = half_b * half_b - a * cc;
    if discriminant < 0.0 {
        return None;
    }
    let sqrtd = discriminant.sqrt();
    let mut root = (-half_b - sqrtd) / a;
    if !(lo < root && root < hi) {
        root = (-half_b + sqrtd) / a;
        if !(lo < root && root < hi) {
            return None;
        }
    }
    let p = [o[0] + d[0] * root, o[1] + d[1] * root, o[2] + d[2] * root];
    let out = [(p[0] - c[0]) / radius, (p[1] - c[1]) / radius, (p[2] - c[2]) / radius];
    let front = d[0] * out[0] + d[1] * out[1] + d[2] * out[2] < 0.0;
    let normal = if front {
        out
    } else {
        [-out[0], -out[1], -out[2]]
    };
    Some((root, p, normal, front))
}

struct Floats {
    state: u64,
}

impl Floats {
    fn next(&mut self) -> f32 {
        self.state = self.state.wrapping_mul(6364136223846793005).wrapping_add(1442695040888963407);
        (((self.state >> 40) as f32) / 16_777_216.0) * 4.0 - 2.0
    }

    fn vector(&mut self) -> [f32; 3] {
        [self.next(), self.next(), self.next()]
    }
}

#[test]
fn a_default_ray_rests_at_the_origin() {
    let r = Ray::default();
    assert_eq!(a(&r.origin()), [0.0, 0.0, 0.0]);
    assert_eq!(a(&r.direction()), [0.0, 0.0, 0.0]);
}

#[test]
fn a_ray_keeps_its_origin_and_direction() {
    let r = ray([1.0, 2.0, 3.0], [0.0, -1.0, 0.5]);
    assert_eq!(a(&r.origin()), [1.0, 2.0, 3.0]);
    assert_eq!(a(&r.direction()), [0.0, -1.0, 0.5]);
}

#[test]
fn at_walks_along_the_ray() {
    let r = ray([1.0, 2.0, 3.0], [0.0, -1.0, 0.5]);
    assert_eq!(a(&r.at(s(0.0))), [1.0, 2.0, 3.0]);
    assert_eq!(a(&r.at(s(1.0))), [1.0, 1.0, 3.5]);
    assert_eq!(a(&r.at(s(2.5))), [1.0, -0.5, 4.25]);
    assert_eq!(a(&r.at(s(-2.0))), [1.0, 4.0, 2.0]);
}

#[test]
fn set_face_normal_keeps_the_normal_against_a_ray_from_outside() {
    let mut rec = HitRecord { p: Vec3::new(), normal: Vec3::new(), t: s(1.0), front_face: false };
    let r = ray([0.0, 0.0, 0.0], [0.0, 0.0, -1.0]);
    rec.set_face_normal(&r, &v(0.0, 0.0, 1.0));
    assert!(rec.front_face);
    assert_eq!(a(&rec.normal), [0.0, 0.0, 1.0]);
    assert_eq!(f(rec.t), 1.0);
}

#[test]
fn set_face_normal_turns_the_normal_against_a_ray_from_inside() {
    let mut rec = HitRecord { p: Vec3::new(), normal: Vec3::new(), t: s(1.0), front_face: true };
    let r = ray([0.0, 0.0, 0.0], [0.0, 0.0, -1.0]);
    rec.set_face_normal(&r, &v(0.0, 0.0, -1.0));
    assert!(!rec.front_face);
    assert_eq!(a(&rec.normal), [0.0, 0.0, 1.0]);
}

#[test]
fn a_ray_along_the_surface_counts_as_coming_from_inside() {
    let mut rec = HitRecord { p: Vec3::new(), normal: Vec3::new(), t: s(1.0), front_face: true };
    let r = ray([0.0, 0.0, 0.0], [1.0, 0.0, 0.0]);
    rec.set_face_normal(&r, &v(0.0, 1.0, 0.0));
    assert!(!rec.front_face);
    assert_eq!(f(rec.normal.y()), -1.0);
}

#[test]
fn the_normal_never_points_along_the_ray() {
    let mut g = Floats { state: 11 };
    for _ in 0..20_000 {
        let d = g.vector();
        let n = g.vector();
        let r = ray([0.0, 0.0, 0.0], d);
        let mut rec = HitRecord { p: Vec3::new(), normal: Vec3::new(), t: s(1.0), front_face: false };
        rec.set_face_normal(&r, &v(n[0], n[1], n[2]));
        assert!(f(Vec3::dot(&r.direction(), &rec.normal)) <= 0.0);
        let dot = d[0] * n[0] + d[1] * n[1] + d[2] * n[2];
        assert_eq!(rec.front_face, dot < 0.0);
    }
}

#[test]
fn a_ray_towards_a_sphere_hits_its_near_side() {
    let sphere = Sphere::new(v(0.0, 0.0, -1.0), s(0.5));
    let r = ray([0.0, 0.0, 0.0], [0.0, 0.0, -1.0]);
    let rec = sphere.hit(&r, &forward()).unwrap();
    assert!(close(f(rec.t), 0.5));
    assert_eq!(f(rec.t), 0.5);
    assert_eq!(a(&rec.p), [0.0, 0.0, -0.5]);
    assert_eq!(a(&rec.normal), [0.0, 0.0, 1.0]);
    assert!(rec.front_face);
}

#[test]
fn a_ray_from_inside_a_sphere_hits_its_far_side_from_behind() {
    let sphere = Sphere::new(v(0.0, 0.0, -1.0), s(0.5));
    let r = ray([0.0, 0.0, -1.0], [0.0, 0.0, -1.0]);
    let rec = sphere.hit(&r, &forward()).unwrap();
    assert_eq!(f(rec.t), 0.5);
    assert_eq!(a(&rec.p), [0.0, 0.0, -1.5]);
    assert!(!rec.front_face);
    assert_eq!(a(&rec.normal), [0.0, 0.0, 1.0]);
}

#[test]
fn a_ray_past_a_sphere_misses_it() {
    let sphere = Sphere::new(v(0.0, 0.0, -1.0), s(0.5));
    assert!(sphere.hit(&ray([0.0, 0.0, 0.0], [0.0, 1.0, -1.0]), &forward()).is_none());
    assert!(sphere.hit(&ray([0.0, 0.0, 0.0], [0.0, 0.0, 1.0]), &forward()).is_none());
    assert!(sphere.hit(&ray([2.0, 0.0, 0.0], [0.0, 0.0, -1.0]), &forward()).is_none());
}

#[test]
fn a_hit_outside_the_range_is_no_hit() {
    let sphere = Sphere::new(v(0.0, 0.0, -1.0), s(0.5));
    let r = ray([0.0, 0.0, 0.0], [0.0, 0.0, -1.0]);
    // Roots at 0.5 and 1.5.
    assert!(sphere.hit(&r, &Interval::with_min_max(s(0.0), s(0.4))).is_none());
    assert!(sphere.hit(&r, &Interval::with_min_max(s(1.6), s(9.0))).is_none());
    assert!(sphere.hit(&r, &Interval::with_min_max(s(0.6), s(1.4))).is_none());
    assert!(sphere.hit(&r, &Interval::empty()).is_none());
    let far = sphere.hit(&r, &Interval::with_min_max(s(0.6), s(9.0))).unwrap();
    assert_eq!(f(far.t), 1.5);
    assert!(!far.front_face);
    assert_eq!(a(&far.normal), [0.0, 0.0, 1.0]);
}

#[test]
fn a_root_on_the_bound_of_the_range_is_not_accepted() {
    let sphere = Sphere::new(v(0.0, 0.0, -1.0), s(0.5));
    let r = ray([0.0, 0.0, 0.0], [0.0, 0.0, -1.0]);
    let far = sphere.hit(&r, &Interval::with_min_max(s(0.5), s(9.0))).unwrap();
    assert_eq!(f(far.t), 1.5);
    assert!(sphere.hit(&r, &Interval::with_min_max(s(0.5), s(1.5))).is_none());
    // A ray that starts on the surface does not hit it where it starts.
    let leaving = ray([0.0, 0.0, -0.5], [0.0, 0.0, 1.0]);
    assert!(sphere.hit(&leaving, &forward()).is_none());
}

#[test]
fn lowering_the_upper_bound_above_a_hit_keeps_the_hit() {
    let sphere = Sphere::new(v(0.0, 0.0, -1.0), s(0.5));
    let r = ray([0.0, 0.0, 0.0], [0.1, 0.05, -1.0]);
    let wide = sphere.hit(&r, &forward()).unwrap();
    let narrow = sphere.hit(&r, &Interval::with_min_max(s(0.0), s(0.75))).unwrap();
    assert_eq!(wide.t.to_bits(), narrow.t.to_bits());
    assert_eq!(a(&wide.p), a(&narrow.p));
    assert_eq!(a(&wide.normal), a(&narrow.normal));
    assert_eq!(wide.front_face, narrow.front_face);
}

#[test]
fn sphere_hits_agree_with_hardware() {
    let mut g = Floats { state: 808 };
    let mut hits = 0;
    for _ in 0..20_000 {
        let c = g.vector();
        let radius = g.next().abs() + 0.1;
        let o = g.vector();
        let d = g.vector();
        let hi = if g.next() < 0.0 {
            f32::INFINITY
        } else {
            g.next().abs() * 2.0
        };
        let sphere = Sphere::new(v(c[0], c[1], c[2]), s(radius));
        let got = sphere.hit(&ray(o, d), &Interval::with_min_max(s(0.0), s(hi)));
        match reference_hit(c, radius, o, d, 0.0, hi) {
            None => assert!(got.is_none()),
            Some((t, p, n, front)) => {
                let rec = got.unwrap();
                assert_eq!(rec.t.to_bits(), t.to_bits());
                assert_eq!(a(&rec.p), p);
                assert_eq!(a(&rec.normal), n);
                assert_eq!(rec.front_face, front);
                assert!(f(rec.t) > 0.0 && f(rec.t) < hi);
                hits += 1;
            },
        }
    }
    assert!(hits > 1_000);
}

#[test]
fn the_normal_of_a_sphere_hit_has_length_one() {
    let mut g = Floats { state: 4711 };
    for _ in 0..5_000 {
        let c = g.vector();
        let sphere = Sphere::new(v(c[0], c[1], c[2]), s(0.75));
        let d = g.vector();
        if let Some(rec) = sphere.hit(&ray([0.0, 0.0, 0.0], d), &forward()) {
            assert!((f(rec.normal.length()) - 1.0).abs() < 1e-4);
        }
    }
}

#[test]
fn an_empty_list_is_never_hit() {
    let world: HitableList<Sphere> = HitableList::new();
    assert!(world.hit(&ray([0.0, 0.0, 0.0], [0.0, 0.0, -1.0]), &forward()).is_none());
    assert!(world.hit(&ray([0.0, 0.0, 0.0], [1.0, 1.0, 1.0]), &Interval::universe()).is_none());
    assert_eq!(world.objects.len(), 0);
}

#[test]
fn add_and_clear_change_the_list() {
    let mut world = HitableList::new();
    world.add(Sphere::new(v(0.0, 0.0, -1.0), s(0.5)));
    world.add(Sphere::new(v(0.0, -100.5, -1.0), s(100.0)));
    assert_eq!(world.objects.len(), 2);
    assert_eq!(f(world.objects[0].radius), 0.5);
    assert_eq!(f(world.objects[1].radius), 100.0);
    let r = ray([0.0, 0.0, 0.0], [0.0, 0.0, -1.0]);
    assert!(world.hit(&r, &forward()).is_some());
    world.clear();
    assert_eq!(world.objects.len(), 0);
    assert!(world.hit(&r, &forward()).is_none());
}

#[test]
fn a_list_of_one_sphere_is_hit_as_the_sphere_is() {
    let sphere = Sphere::new(v(0.0, 0.0, -1.0), s(0.5));
    let mut world = HitableList::new();
    world.add(sphere);
    let r = ray([0.0, 0.0, 0.0], [0.05, -0.1, -1.0]);
    let alone = sphere.hit(&r, &forward()).unwrap();
    let listed = world.hit(&r, &forward()).unwrap();
    assert_eq!(alone.t.to_bits(), listed.t.to_bits());
    assert_eq!(a(&alone.p), a(&listed.p));
    assert_eq!(a(&alone.normal), a(&listed.normal));
}

#[test]
fn of_two_overlapping_spheres_the_nearer_hit_is_reported() {
    let near = Sphere::new(v(0.0, 0.0, -1.0), s(0.5));
    let far = Sphere::new(v(0.0, 0.0, -1.25), s(0.5));
    let r = ray([0.0, 0.0, 0.0], [0.0, 0.0, -1.0]);
    let mut world = HitableList::new();
    world.add(near);
    world.add(far);
    let rec = world.hit(&r, &forward()).unwrap();
    assert_eq!(f(rec.t), 0.5);
    assert_eq!(a(&rec.p), [0.0, 0.0, -0.5]);
    let mut other_order = HitableList::new();
    other_order.add(far);
    other_order.add(near);
    let rec = other_order.hit(&r, &forward()).unwrap();
    assert_eq!(f(rec.t), 0.5);
    assert_eq!(a(&rec.p), [0.0, 0.0, -0.5]);
    assert_eq!(f(far.hit(&r, &forward()).unwrap().t), 0.75);
}

#[test]
fn of_equally_near_hits_the_first_surface_is_kept() {
    // Two spheres that touch the ray's path at the same parameter, with
    // different centres: the later one is not strictly nearer.
    let first = Sphere::new(v(0.0, 0.0, -1.0), s(0.5));
    let second = Sphere::new(v(0.0, 0.0, -1.5), s(1.0));
    let r = ray([0.0, 0.0, 0.0], [0.0, 0.0, -1.0]);
    assert_eq!(f(first.hit(&r, &forward()).unwrap().t), 0.5);
    assert_eq!(f(second.hit(&r, &forward()).unwrap().t), 0.5);
    let mut world = HitableList::new();
    world.add(first);
    world.add(second);
    let rec = world.hit(&r, &forward()).unwrap();
    assert_eq!(f(rec.t), 0.5);
    // The second sphere is then asked about the range up to 0.5 only, and
    // answers with nothing, its far side being farther.
    assert_eq!(a(&rec.normal), [0.0, 0.0, 1.0]);
}

#[test]
fn the_list_reports_no_hit_farther_than_any_of_its_spheres() {
    let mut g = Floats { state: 2 };
    for _ in 0..3_000 {
        let mut world = HitableList::new();
        let mut spheres = Vec::new();
        for _ in 0..4 {
            let c = g.vector();
            let sphere = Sphere::new(v(c[0], c[1], c[2] - 3.0), s(g.next().abs() + 0.2));
            spheres.push(sphere);
            world.add(sphere);
        }
        let r = ray([0.0, 0.0, 0.0], [g.next() * 0.3, g.next() * 0.3, -1.0]);
        let best = world.hit(&r, &forward());
        let mut nearest: Option<f32> = None;
        for sphere in spheres.iter() {
            if let Some(rec) = sphere.hit(&r, &forward()) {
                let t = f(rec.t);
                nearest = Some(match nearest {
                    Some(n) if n <= t => n,
                    _ => t,
                });
            }
        }
        match nearest {
            None => assert!(best.is_none()),
            Some(t) => assert_eq!(f(best.unwrap().t), t),
        }
    }
}
