//! Vector algebra, held against the same formulas on the machine's binary32.
use raytracer::scalar::Scalar;
use raytracer::vec3::Vec3;

fn s(x: f32) -> Scalar {
    Scalar::from_bits(x.to_bits())
}

fn f(x: Scalar) -> f32 {
    f32::from_bits(x.to_bits())
}

fn v(x: f32, y: f32, z: f32) -> Vec3 {
    Vec3::with_position(s(x), s(y), s(z))
}

fn a(v: &Vec3) -> [f32; 3] {
    [f(v.x()), f(v.y()), f(v.z())]
}

fn same(got: Scalar, want: f32) -> bool {
    (f(got).is_nan() && want.is_nan()) || got.to_bits() == want.to_bits()
}

fn same3(got: &Vec3, want: [f32; 3]) -> bool {
    same(got.x(), want[0]) && same(got.y(), want[1]) && same(got.z(), want[2])
}

struct Floats {
    state: u64,
}

impl Floats {
    fn next(&mut self) -> f32 {
        self.state = self.state.wrapping_mul(6364136223846793005).wrapping_add(1442695040888963407);
        let unit = ((self.state >> 40) as f32) / 16_777_216.0;
        let scale = [0.001f32, 1.0, 1.0, 10.0, 1000.0][(self.state % 5) as usize];
        (unit * 2.0 - 1.0) * scale
    }

    fn vector(&mut self) -> [f32; 3] {
        [self.next(), self.next(), self.next()]
    }
}

#[test]
fn a_new_vector_is_the_origin() {
    let z = Vec3::new();
    assert_eq!(z.x().to_bits(), 0);
    assert_eq!(z.y().to_bits(), 0);
    assert_eq!(z.z().to_bits(), 0);
}

#[test]
fn constructors_keep_their_components() {
    let c = Vec3::with_color(s(0.25), s(0.5), s(0.75));
    assert_eq!(a(&c), [0.25, 0.5, 0.75]);
    let p = Vec3::with_position(s(-1.0), s(2.0), s(-3.0));
    assert_eq!(a(&p), [-1.0, 2.0, -3.0]);
    assert_eq!(f(p.component(0)), -1.0);
    assert_eq!(f(p.component(1)), 2.0);
    assert_eq!(f(p.component(2)), -3.0);
}

#[test]
fn set_component_replaces_one_component() {
    let mut p = v(1.0, 2.0, 3.0);
    p.set_component(1, s(9.0));
    assert_eq!(a(&p), [1.0, 9.0, 3.0]);
    p.set_component(0, s(-4.0));
    p.set_component(2, s(0.5));
    assert_eq!(a(&p), [-4.0, 9.0, 0.5]);
}

#[test]
fn sums_differences_and_scalings_are_exact_on_small_numbers() {
    let p = v(1.0, 2.0, 3.0);
    let q = v(0.5, -4.0, 8.0);
    assert_eq!(a(&p.add(q)), [1.5, -2.0, 11.0]);
    assert_eq!(a(&p.sub(q)), [0.5, 6.0, -5.0]);
    assert_eq!(a(&p.mul(s(2.0))), [2.0, 4.0, 6.0]);
    assert_eq!(a(&p.div(s(2.0))), [0.5, 1.0, 1.5]);
    assert_eq!(a(&p.neg()), [-1.0, -2.0, -3.0]);
}

#[test]
fn dot_and_cross_of_the_axes() {
    let x = v(1.0, 0.0, 0.0);
    let y = v(0.0, 1.0, 0.0);
    let z = v(0.0, 0.0, 1.0);
    assert_eq!(f(Vec3::dot(&x, &y)), 0.0);
    assert_eq!(f(Vec3::dot(&x, &x)), 1.0);
    assert_eq!(a(&Vec3::cross(&x, &y)), [0.0, 0.0, 1.0]);
    assert_eq!(a(&Vec3::cross(&y, &z)), [1.0, 0.0, 0.0]);
    assert_eq!(a(&Vec3::cross(&z, &x)), [0.0, 1.0, 0.0]);
    assert_eq!(a(&Vec3::cross(&y, &x)), [0.0, 0.0, -1.0]);
}

#[test]
fn lengths_of_a_pythagorean_vector() {
    let p = v(3.0, 4.0, 12.0);
    assert_eq!(f(p.length_squared()), 169.0);
    assert_eq!(f(p.length()), 13.0);
    let u = Vec3::unit_vector(&p);
    assert_eq!(a(&u), [3.0f32 / 13.0, 4.0f32 / 13.0, 12.0f32 / 13.0]);
}

#[test]
fn algebra_agrees_with_hardware_on_random_vectors() {
    let mut g = Floats { state: 2024 };
    for _ in 0..20_000 {
        let p = g.vector();
        let q = g.vector();
        let t = g.next();
        let (vp, vq) = (v(p[0], p[1], p[2]), v(q[0], q[1], q[2]));
        assert!(same3(&vp.add(vq), [p[0] + q[0], p[1] + q[1], p[2] + q[2]]));
        assert!(same3(&vp.sub(vq), [p[0] - q[0], p[1] - q[1], p[2] - q[2]]));
        assert!(same3(&vp.mul(s(t)), [p[0] * t, p[1] * t, p[2] * t]));
        assert!(same3(&vp.div(s(t)), [p[0] / t, p[1] / t, p[2] / t]));
        assert!(same3(&vp.neg(), [-p[0], -p[1], -p[2]]));
        let dot = p[0] * q[0] + p[1] * q[1] + p[2] * q[2];
        assert!(same(Vec3::dot(&vp, &vq), dot));
        let cross = [
            p[1] * q[2] - p[2] * q[1],
            p[2] * q[0] - p[0] * q[2],
            p[0] * q[1] - p[1] * q[0],
        ];
        assert!(same3(&Vec3::cross(&vp, &vq), cross));
        let len2 = p[0] * p[0] + p[1] * p[1] + p[2] * p[2];
        assert!(same(vp.length_squared(), len2));
        assert!(same(vp.length(), len2.sqrt()));
        let len = len2.sqrt();
        assert!(same3(&Vec3::unit_vector(&vp), [p[0] / len, p[1] / len, p[2] / len]));
        assert_eq!(vp.in_unit_sphere(), len2 < 1.0);
    }
}

#[test]
fn unit_vectors_have_length_one_within_tolerance() {
    let mut g = Floats { state: 31337 };
    for _ in 0..20_000 {
        let p = g.vector();
        let u = Vec3::unit_vector(&v(p[0], p[1], p[2]));
        let len = f(u.length());
        assert!((len - 1.0).abs() < 1e-6, "{:?} gives length {}", p, len);
        let again = Vec3::unit_vector(&u);
        let len = f(again.length());
        assert!((len - 1.0).abs() < 1e-6);
    }
}

#[test]
fn the_unit_vector_of_the_origin_is_not_a_number() {
    let u = Vec3::unit_vector(&Vec3::new());
    assert!(f(u.x()).is_nan());
    assert!(f(u.y()).is_nan());
    assert!(f(u.z()).is_nan());
}

#[test]
fn toward_keeps_or_turns_a_direction() {
    let n = v(0.0, 1.0, 0.0);
    assert_eq!(a(&Vec3::toward(v(0.3, 0.5, -0.2), &n)), [0.3, 0.5, -0.2]);
    assert_eq!(a(&Vec3::toward(v(0.3, -0.5, -0.2), &n)), [-0.3, 0.5, 0.2]);
    // A direction along the surface is turned round: its dot product is
    // not above zero.
    let along = Vec3::toward(v(1.0, 0.0, 0.0), &n);
    assert_eq!(along.x().to_bits(), (-1.0f32).to_bits());
    assert_eq!(along.y().to_bits(), (-0.0f32).to_bits());
}

#[test]
fn toward_never_points_away_from_the_normal() {
    let mut g = Floats { state: 5 };
    for _ in 0..20_000 {
        let p = g.vector();
        let n = g.vector();
        let (vp, vn) = (v(p[0], p[1], p[2]), v(n[0], n[1], n[2]));
        let r = Vec3::toward(vp, &vn);
        assert!(f(Vec3::dot(&r, &vn)) >= 0.0);
    }
}

#[test]
fn random_components_lie_in_the_unit_interval() {
    let mut seen_different = false;
    let first = Vec3::random();
    for _ in 0..2_000 {
        let r = Vec3::random();
        for c in a(&r).iter() {
            assert!(*c >= 0.0 && *c < 1.0);
            assert_eq!((*c * 16_777_216.0).fract(), 0.0);
        }
        seen_different = seen_different || a(&r) != a(&first);
    }
    assert!(seen_different);
}

#[test]
fn random_with_limits_stays_within_the_limits() {
    for _ in 0..2_000 {
        let r = Vec3::random_with_limits(s(-1.0), s(1.0));
        for c in a(&r).iter() {
            assert!(*c >= -1.0 && *c <= 1.0);
        }
        let r = Vec3::random_with_limits(s(10.0), s(12.5));
        for c in a(&r).iter() {
            assert!(*c >= 10.0 && *c <= 12.5);
        }
    }
}

#[test]
fn within_limits_spreads_unit_samples() {
    let u = v(0.0, 0.5, 0.75);
    assert_eq!(a(&Vec3::within_limits(s(-1.0), s(1.0), &u)), [-1.0, 0.0, 0.5]);
    assert_eq!(a(&Vec3::within_limits(s(2.0), s(6.0), &u)), [2.0, 4.0, 5.0]);
}

#[test]
fn random_in_unit_sphere_lies_inside_the_sphere() {
    for _ in 0..5_000 {
        let p = Vec3::random_in_unit_sphere();
        assert!(f(p.length_squared()) < 1.0);
        assert!(p.in_unit_sphere());
    }
}

#[test]
fn random_unit_vectors_have_length_one() {
    for _ in 0..5_000 {
        let u = Vec3::random_unit_vector();
        assert!((f(u.length()) - 1.0).abs() < 1e-6);
    }
}

#[test]
fn random_on_hemisphere_never_points_away_from_the_normal() {
    let normals = [
        v(0.0, 0.0, 1.0),
        v(0.0, 1.0, 0.0),
        v(-1.0, 0.0, 0.0),
        v(0.3, -0.4, 0.5),
        v(-12.0, 7.0, 0.001),
    ];
    for n in normals.iter() {
        for _ in 0..2_000 {
            let d = Vec3::random_on_hemisphere(n);
            assert!(f(Vec3::dot(&d, n)) >= 0.0);
            assert!((f(d.length()) - 1.0).abs() < 1e-6);
        }
    }
}

#[test]
fn linear_to_gamma_is_the_square_root() {
    assert_eq!(f(Vec3::linear_to_gamma(s(0.25))), 0.5);
    assert_eq!(f(Vec3::linear_to_gamma(s(1.0))), 1.0);
    assert_eq!(f(Vec3::linear_to_gamma(s(0.0))), 0.0);
    assert_eq!(f(Vec3::linear_to_gamma(s(2.0))), 2.0f32.sqrt());
    assert!(f(Vec3::linear_to_gamma(s(-1.0))).is_nan());
}

#[test]
fn quantize_maps_the_mean_of_a_channel_to_a_byte() {
    assert_eq!(Vec3::quantize(s(0.0)), 0);
    assert_eq!(Vec3::quantize(s(0.25)), 128);
    assert_eq!(Vec3::quantize(s(1.0)), 255);
    assert_eq!(Vec3::quantize(s(4.0)), 255);
    assert_eq!(Vec3::quantize(s(0.5)), 181);
    assert_eq!(Vec3::quantize(s(0.0625)), 64);
    // The square root of a negative mean is not a number; it passes the
    // clamp and is cut off to zero.
    assert_eq!(Vec3::quantize(s(-0.5)), 0);
}

#[test]
fn quantize_agrees_with_hardware() {
    let mut g = Floats { state: 606 };
    for _ in 0..50_000 {
        let c = g.next().abs();
        let g32 = c.sqrt();
        let clamped = if g32 > 0.999 {
            0.999
        } else if g32 < 0.0 {
            0.0
        } else {
            g32
        };
        assert_eq!(Vec3::quantize(s(c)), (256.0 * clamped) as u8, "{}", c);
    }
}

#[test]
fn write_color_averages_applies_gamma_clamps_and_quantizes() {
    let c = v(1.0, 0.25, 0.0);
    assert_eq!(c.write_color(1), "255 128 0");
    let sum = v(4.0, 1.0, 0.25);
    assert_eq!(sum.write_color(4), "255 128 64");
    let dim = v(0.1, 0.2, 0.3);
    let want = [
        (256.0f32 * (0.1f32 * (1.0f32 / 10.0)).sqrt()) as u8,
        (256.0f32 * (0.2f32 * (1.0f32 / 10.0)).sqrt()) as u8,
        (256.0f32 * (0.3f32 * (1.0f32 / 10.0)).sqrt()) as u8,
    ];
    assert_eq!(dim.write_color(10), format!("{} {} {}", want[0], want[1], want[2]));
    assert_eq!(dim.write_color(10), "25 36 44");
    assert_eq!(dim.quantized(10), (25, 36, 44));
}

#[test]
fn write_color_of_black_and_of_white() {
    assert_eq!(Vec3::new().write_color(1), "0 0 0");
    assert_eq!(Vec3::new().write_color(100), "0 0 0");
    assert_eq!(v(1.0, 1.0, 1.0).write_color(1), "255 255 255");
    assert_eq!(v(50.0, 50.0, 50.0).write_color(50), "255 255 255");
}

#[test]
fn to_string_scales_the_unit_cube_to_bytes() {
    assert_eq!(v(0.0, 0.5, 1.0).to_string(), "0 127 255");
    assert_eq!(v(0.25, 0.75, 0.999).to_string(), "63 191 255");
    assert_eq!(v(2.0, -1.0, 0.1).to_string(), "255 0 25");
}

#[test]
fn near_unit_vectors_normalise_to_within_two_to_the_minus_20() {
    // Vectors whose squared length lies between a quarter and four: their
    // unit vectors have a length between 1 - 2^-20 and 1 + 2^-20.
    let below = f32::from_bits(raytracer::unit_length::JUST_BELOW_ONE);
    let above = f32::from_bits(raytracer::unit_length::JUST_ABOVE_ONE);
    assert_eq!(below, 1.0 - 1.0 / 1_048_576.0);
    assert_eq!(above, 1.0 + 1.0 / 1_048_576.0);
    let mut g = Floats { state: 271828 };
    let mut tried = 0;
    while tried < 20_000 {
        let p = g.vector();
        let vp = v(p[0], p[1], p[2]);
        let len2 = f(vp.length_squared());
        if len2 < 0.25 || len2 > 4.0 {
            continue;
        }
        tried += 1;
        let len = f(Vec3::unit_vector(&vp).length());
        assert!(below <= len && len <= above, "{:?} gives length {}", p, len);
    }
    for p in [[0.5f32, 0.0, 0.0], [2.0, 0.0, 0.0], [0.0, -1.0, 0.0], [1.0, 1.0, 1.0]].iter() {
        let len = f(Vec3::unit_vector(&v(p[0], p[1], p[2])).length());
        assert!(below <= len && len <= above);
    }
}

#[test]
fn a_vector_too_long_to_square_does_not_normalise() {
    // The squared length overflows, the length is infinite, and the
    // quotient is the origin.
    let u = Vec3::unit_vector(&v(1.0e30, 0.0, 0.0));
    assert_eq!(a(&u), [0.0, 0.0, 0.0]);
    assert_eq!(f(u.length()), 0.0);
}
