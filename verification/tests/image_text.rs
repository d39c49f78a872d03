//! The text of the image file.
use raytracer::camera::Camera;
use raytracer::hitable::HitableList;
use raytracer::scalar::Scalar;
use raytracer::sphere::Sphere;
use raytracer::text::{append_decimal, append_newline, append_space, triple};
use raytracer::vec3::Vec3;

fn s(x: f32) -> Scalar {
    Scalar::from_bits(x.to_bits())
}

fn camera(width: usize, aspect: f32, samples: usize, depth: isize) -> Camera {
    let mut c = Camera::new();
    c.image_width = width;
    c.aspect_ratio = s(aspect);
    c.samples_per_pixel = samples;
    c.max_depth = depth;
    c
}

fn closed_room() -> HitableList<Sphere> {
    let mut world = HitableList::new();
    world.add(Sphere::new(Vec3::new(), s(10.0)));
    world
}

fn pixels(text: &str) -> Vec<[u32; 3]> {
    text.lines()
        .skip(3)
        .map(|l| {
            let n: Vec<u32> = l.split(' ').map(|x| x.parse().unwrap()).collect();
            assert_eq!(n.len(), 3, "{:?}", l);
            [n[0], n[1], n[2]]
        })
        .collect()
}

#[test]
fn decimal_text_has_no_leading_zeros() {
    let mut t = String::new();
    append_decimal(&mut t, 0);
    append_space(&mut t);
    append_decimal(&mut t, 7);
    append_space(&mut t);
    append_decimal(&mut t, 10);
    append_space(&mut t);
    append_decimal(&mut t, 255);
    append_newline(&mut t);
    append_decimal(&mut t, 1_000_000);
    append_space(&mut t);
    append_decimal(&mut t, u64::MAX);
    assert_eq!(t, "0 7 10 255\n1000000 18446744073709551615");
}

#[test]
fn appending_keeps_what_was_there() {
    let mut t = String::from("width ");
    append_decimal(&mut t, 720);
    assert_eq!(t, "width 720");
}

#[test]
fn a_triple_is_three_numbers_and_two_spaces() {
    assert_eq!(triple(0, 0, 0), "0 0 0");
    assert_eq!(triple(255, 128, 7), "255 128 7");
    assert_eq!(triple(12, 3456, 789), "12 3456 789");
}

#[test]
fn the_header_names_format_size_and_depth() {
    let mut c = camera(720, 16.0 / 9.0, 1, 1);
    c.initialize();
    assert_eq!(c.header(), "P3\n720 405\n255\n");
    let mut c = camera(2, 1.0, 1, 1);
    c.initialize();
    assert_eq!(c.header(), "P3\n2 2\n255\n");
}

#[test]
fn an_image_from_inside_a_closed_sphere_is_black() {
    let mut cam = camera(2, 1.0, 1, 1);
    let text = cam.render(&closed_room());
    assert_eq!(text, "P3\n2 2\n255\n0 0 0\n0 0 0\n0 0 0\n0 0 0\n");
    assert_eq!(cam.image_height, 2);
}

#[test]
fn an_image_without_bounces_is_black() {
    let mut cam = camera(3, 1.5, 2, 0);
    let empty: HitableList<Sphere> = HitableList::new();
    let text = cam.render(&empty);
    assert_eq!(text, "P3\n3 2\n255\n0 0 0\n0 0 0\n0 0 0\n0 0 0\n0 0 0\n0 0 0\n");
}

#[test]
fn render_initializes_the_camera() {
    let mut cam = camera(4, 2.0, 1, 1);
    let mut twin = cam;
    twin.initialize();
    let _ = cam.render(&closed_room());
    assert_eq!(cam.image_height, twin.image_height);
    assert_eq!(cam.image_height, 2);
    assert_eq!(cam.pixel00_loc.x().to_bits(), twin.pixel00_loc.x().to_bits());
    assert_eq!(cam.pixel00_loc.y().to_bits(), twin.pixel00_loc.y().to_bits());
    assert_eq!(cam.pixel00_loc.z().to_bits(), twin.pixel00_loc.z().to_bits());
    assert_eq!(cam.pixel_delta_u.x().to_bits(), twin.pixel_delta_u.x().to_bits());
    assert_eq!(cam.pixel_delta_v.y().to_bits(), twin.pixel_delta_v.y().to_bits());
}

#[test]
fn an_image_has_one_line_for_each_pixel() {
    let mut cam = camera(7, 7.0 / 3.0, 2, 3);
    let empty: HitableList<Sphere> = HitableList::new();
    let text = cam.render(&empty);
    assert!(text.starts_with("P3\n7 3\n255\n"));
    assert!(text.ends_with('\n'));
    assert_eq!(text.lines().count(), 3 + 7 * 3);
    for p in pixels(&text).iter() {
        assert!(p[0] <= 255 && p[1] <= 255 && p[2] <= 255);
    }
}

#[test]
fn an_image_of_the_sky_is_bluer_at_the_top() {
    let mut cam = camera(2, 1.0, 1, 1);
    let empty: HitableList<Sphere> = HitableList::new();
    for _ in 0..50 {
        let text = cam.render(&empty);
        let p = pixels(&text);
        assert_eq!(p.len(), 4);
        for top in p[0..2].iter() {
            // Above the horizon: between the midpoint and full blue.
            assert!(top[0] >= 181 && top[0] <= 221, "{:?}", top);
            assert!(top[1] >= 214 && top[1] <= 236, "{:?}", top);
            assert_eq!(top[2], 255);
        }
        for bottom in p[2..4].iter() {
            // Below the horizon: between the midpoint and white.
            assert!(bottom[0] >= 221, "{:?}", bottom);
            assert!(bottom[1] >= 236, "{:?}", bottom);
            assert_eq!(bottom[2], 255);
        }
    }
}

#[test]
fn an_image_with_a_sphere_ahead_has_a_dark_centre() {
    // Three by three pixels; the sphere covers the middle one and leaves
    // the corners free.
    let mut cam = camera(3, 1.0, 1, 1);
    let mut world = HitableList::new();
    world.add(Sphere::new(Vec3::with_position(s(0.0), s(0.0), s(-1.0)), s(0.6)));
    for _ in 0..20 {
        let text = cam.render(&world);
        let p = pixels(&text);
        assert_eq!(p.len(), 9);
        assert_eq!(p[4], [0, 0, 0]);
    }
}
