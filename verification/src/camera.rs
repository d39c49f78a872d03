//! The camera: it lays a grid of pixels over the viewport, sends rays
//! through them, and follows each ray through the scene.
use vstd::prelude::*;
use vstd::string::*;
use crate::{is_unit_sample, random};
use crate::text::{append_decimal, append_newline, append_space, decimal};
use crate::hitable::{HitRecord, Hitable, HitableList};
use crate::interval::Interval;
use crate::ray::Ray;
use crate::scalar::{Scalar, HALF, INFINITY, MINUS_HALF, ONE, TWO, ZERO};
use crate::vec3::Vec3;

verus! {

/// The bit pattern of 0.7, the green of the sky.
pub const SKY_GREEN: u32 = 0x3f33_3333;

/// The bit patterns of the viewport that a new camera holds until it is
/// initialized.
pub const FIRST_PIXEL_LEFT: u32 = 0xbdb8_51ec;

/// The bit pattern of 0.09.
pub const FIRST_PIXEL_UP: u32 = 0x3db8_51ec;

/// The bit pattern of 0.02.
pub const PIXEL_STEP_RIGHT: u32 = 0x3ca3_d70a;

/// The bit pattern of -0.02.
pub const PIXEL_STEP_DOWN: u32 = 0xbca3_d70a;

/// A camera at the origin that looks along the negative z axis.
///
/// The first four fields are set by the user. The others are derived from
/// them by `initialize`, which `render` calls first; what they hold before
/// that is of no use.
#[derive(Clone, Copy, Debug)]
pub struct Camera {
    /// Ratio of image width over height.
    pub aspect_ratio: Scalar,
    /// Rendered image width in pixel count.
    pub image_width: usize,
    /// Count of random samples for each pixel.
    pub samples_per_pixel: usize,
    /// Maximum number of ray bounces into the scene.
    pub max_depth: isize,
    /// Rendered image height.
    pub image_height: usize,
    /// Camera centre.
    pub center: Vec3,
    /// Location of pixel 0, 0.
    pub pixel00_loc: Vec3,
    /// Offset to the pixel to the right.
    pub pixel_delta_u: Vec3,
    /// Offset to the pixel below.
    pub pixel_delta_v: Vec3,
}

/// The range of parameters in which a ray is followed: from zero on, both
/// ends excluded.
pub open spec fn forward_spec() -> Interval {
    Interval { min: Scalar::lit(ZERO), max: Scalar::lit(INFINITY) }
}

/// The colour of the sky along a ray: white blended into blue by the height
/// of the ray's direction, `a = 0.5 * (y + 1)` for the unit direction's
/// `y`, as `(1 - a) * white + a * blue`.
pub open spec fn sky_spec(r: Ray) -> Vec3 {
    let unit_direction = Vec3::unit_vector_spec(r.direction);
    let a = Scalar::lit(HALF).mul_spec(unit_direction.e1.add_spec(Scalar::lit(ONE)));
    let white = Vec3 { e0: Scalar::lit(ONE), e1: Scalar::lit(ONE), e2: Scalar::lit(ONE) };
    let blue = Vec3 { e0: Scalar::lit(HALF), e1: Scalar::lit(SKY_GREEN), e2: Scalar::lit(ONE) };
    white.mul_spec(Scalar::lit(ONE).sub_spec(a)).add_spec(blue.mul_spec(a))
}

/// The ray that leaves a hit towards the side of the normal on which the
/// point `p` of the unit sphere lies.
pub open spec fn scatter_spec(rec: HitRecord, p: Vec3) -> Ray {
    Ray { origin: rec.p, direction: Vec3::toward_spec(Vec3::unit_vector_spec(p), rec.normal) }
}

/// Whether every point of the sequence lies strictly inside the unit
/// sphere.
pub open spec fn all_in_unit_sphere(points: Seq<Vec3>) -> bool {
    forall|i: int| 0 <= i < points.len() ==> (#[trigger] points[i]).in_unit_sphere_spec()
}

/// The number of bounces that a depth allows.
pub open spec fn bounces(depth: int) -> nat {
    if depth > 0 {
        depth as nat
    } else {
        0
    }
}

/// The colour that `r` brings back from `world` when it may bounce `depth`
/// times and chance picks `points` for the bounces, one point of the unit
/// sphere each. With no bounce left it is black. Where the ray leaves the
/// scene it is the sky's colour. Where the ray hits, it is half of what
/// the ray scattered towards the first point brings back with one bounce
/// less and the remaining points.
pub open spec fn color_along<T: Hitable>(
    world: &HitableList<T>,
    r: Ray,
    depth: int,
    points: Seq<Vec3>,
) -> Vec3
    decreases depth,
{
    if depth <= 0 {
        Vec3::zero_spec()
    } else {
        match world.hit_spec(r, forward_spec()) {
            Some(rec) => color_along(
                world,
                scatter_spec(rec, points[0]),
                depth - 1,
                points.skip(1),
            ).mul_spec(Scalar::lit(HALF)),
            None => sky_spec(r),
        }
    }
}

/// `c` is a colour that following `r` through `world` for at most `depth`
/// bounces can give: the colour along some choice of points.
pub open spec fn is_ray_color<T: Hitable>(world: &HitableList<T>, r: Ray, depth: int, c: Vec3) -> bool {
    exists|points: Seq<Vec3>|
        points.len() == bounces(depth) && all_in_unit_sphere(points) && c == #[trigger] color_along(
            world,
            r,
            depth,
            points,
        )
}

/// What chance contributes to one sample of a pixel: two unit samples that
/// shift the ray inside the pixel, and a point of the unit sphere for each
/// bounce.
pub type Draw = (Scalar, Scalar, Seq<Vec3>);

/// The place of pixel `i`, `j` in an image of width `w` that is stored
/// scanline after scanline.
pub open spec fn pixel_index(w: nat, i: nat, j: nat) -> int {
    (j * w + i) as int
}

/// The first lines of an image file in the plain PPM format: `P3`, the
/// width and the height, and 255 as the largest channel value.
pub open spec fn header_text(w: nat, h: nat) -> Seq<char> {
    seq!['P', '3', '\n'] + decimal(w) + seq![' '] + decimal(h) + seq!['\n', '2', '5', '5', '\n']
}

/// One line for each colour, in their order.
pub open spec fn pixel_lines(colors: Seq<Vec3>, samples_per_pixel: nat) -> Seq<char>
    decreases colors.len(),
{
    if colors.len() == 0 {
        Seq::empty()
    } else {
        pixel_lines(colors.drop_last(), samples_per_pixel) + colors.last().write_color_spec(
            samples_per_pixel,
        ) + seq!['\n']
    }
}

/// A pixel that is scanned earlier has a smaller index.
pub proof fn lemma_pixel_index_before(w: nat, ii: nat, jj: nat, i: nat, j: nat)
    requires
        ii < w,
        jj < j || (jj == j && ii < i),
    ensures
        0 <= pixel_index(w, ii, jj) < pixel_index(w, i, j),
{
    assert(0 <= jj * w && (jj < j ==> jj * w + w <= j * w)) by (nonlinear_arith)
        requires
            jj <= j,
    ;
}

/// The index behind the last pixel of a scanline is the first of the next;
/// the first scanline starts at 0, and `j` scanlines hold `w * j` pixels.
pub proof fn lemma_pixel_index_rows(w: nat, j: nat)
    ensures
        pixel_index(w, 0, j) == w * j,
        j > 0 ==> pixel_index(w, w, (j - 1) as nat) == pixel_index(w, 0, j),
{
    assert(j * w == w * j) by (nonlinear_arith);
    assert(j > 0 ==> (j - 1) * w + w == j * w) by (nonlinear_arith);
}

/// The colour of the sky along a ray.
pub fn sky_color(r: &Ray) -> (c: Vec3)
    ensures
        c == sky_spec(*r),
{
    let unit_direction = Vec3::unit_vector(&r.direction());
    let a = Scalar::from_bits(HALF) * (unit_direction.y() + Scalar::one());
    let white = Vec3::with_color(Scalar::one(), Scalar::one(), Scalar::one());
    let blue = Vec3::with_color(
        Scalar::from_bits(HALF),
        Scalar::from_bits(SKY_GREEN),
        Scalar::one(),
    );
    white * (Scalar::one() - a) + blue * a
}

impl Camera {
    /// The number of scanlines: the width over the aspect ratio, rounded to
    /// the nearest whole number, and at least one.
    pub open spec fn image_height_spec(self) -> nat {
        let h = Scalar::from_int_spec(self.image_width as nat).div_spec(
            self.aspect_ratio,
        ).round_spec(usize::MAX as nat);
        if h == 0 {
            1
        } else {
            h
        }
    }

    /// The camera with its derived fields worked out from its settings: a
    /// viewport of height 2 and width `2 * aspect_ratio` at distance 1,
    /// cut into `image_width` by `image_height` pixels, with the first
    /// pixel's centre half a step in from the upper left corner.
    pub open spec fn initialized_spec(self) -> Camera {
        let zero = Scalar::lit(ZERO);
        let two = Scalar::lit(TWO);
        let center = Vec3 { e0: zero, e1: zero, e2: zero };
        let image_height = self.image_height_spec() as usize;
        let viewport_width = two.mul_spec(self.aspect_ratio);
        let viewport_u = Vec3 { e0: viewport_width, e1: zero, e2: zero };
        let viewport_v = Vec3 { e0: zero, e1: two.neg_spec(), e2: zero };
        let pixel_delta_u = viewport_u.div_spec(Scalar::from_int_spec(self.image_width as nat));
        let pixel_delta_v = viewport_v.div_spec(Scalar::from_int_spec(image_height as nat));
        let viewport_upper_left = center.sub_spec(
            Vec3 { e0: zero, e1: zero, e2: Scalar::lit(ONE) },
        ).sub_spec(viewport_u.div_spec(two)).sub_spec(viewport_v.div_spec(two));
        let pixel00_loc = viewport_upper_left.add_spec(
            pixel_delta_u.add_spec(pixel_delta_v).mul_spec(Scalar::lit(HALF)),
        );
        Camera {
            aspect_ratio: self.aspect_ratio,
            image_width: self.image_width,
            samples_per_pixel: self.samples_per_pixel,
            max_depth: self.max_depth,
            image_height,
            center,
            pixel00_loc,
            pixel_delta_u,
            pixel_delta_v,
        }
    }

    /// Whether the derived fields are what the settings make them: whether
    /// the camera was initialized and its width and aspect ratio were left
    /// alone since.
    pub open spec fn is_initialized(self) -> bool {
        self == self.initialized_spec()
    }

    /// The offset from a pixel's centre that two unit samples pick: up to
    /// half a pixel step to either side, along both steps.
    pub open spec fn square_spec(self, u: Scalar, v: Scalar) -> Vec3 {
        let px = Scalar::lit(MINUS_HALF).add_spec(u);
        let py = Scalar::lit(MINUS_HALF).add_spec(v);
        self.pixel_delta_u.mul_spec(px).add_spec(self.pixel_delta_v.mul_spec(py))
    }

    /// The ray from the camera's centre through the point `offset` away
    /// from the centre of pixel `i`, `j`.
    pub open spec fn ray_through_spec(self, i: nat, j: nat, offset: Vec3) -> Ray {
        let pixel_center = self.pixel00_loc.add_spec(
            self.pixel_delta_u.mul_spec(Scalar::from_int_spec(i)),
        ).add_spec(self.pixel_delta_v.mul_spec(Scalar::from_int_spec(j)));
        let pixel_sample = pixel_center.add_spec(offset);
        Ray { origin: self.center, direction: pixel_sample.sub_spec(self.center) }
    }

    /// `r` is a ray that the camera may send through pixel `i`, `j`.
    pub open spec fn is_pixel_ray(self, i: nat, j: nat, r: Ray) -> bool {
        exists|u: Scalar, v: Scalar|
            is_unit_sample(u) && is_unit_sample(v) && r == self.ray_through_spec(
                i,
                j,
                #[trigger] self.square_spec(u, v),
            )
    }

    /// A camera with the settings that a user is expected to replace: a
    /// square image of 100 by 100 pixels, 10 samples each, 10 bounces.
    pub fn new() -> (r: Camera)
        ensures
            r.aspect_ratio == Scalar::lit(ONE),
            r.image_width == 100,
            r.image_height == 100,
            r.samples_per_pixel == 10,
            r.max_depth == 10,
            r.center == Vec3::zero_spec(),
            r.pixel00_loc == (Vec3 {
                e0: Scalar::lit(FIRST_PIXEL_LEFT),
                e1: Scalar::lit(FIRST_PIXEL_UP),
                e2: Scalar::lit(ONE),
            }),
            r.pixel_delta_u == (Vec3 {
                e0: Scalar::lit(PIXEL_STEP_RIGHT),
                e1: Scalar::lit(ZERO),
                e2: Scalar::lit(ZERO),
            }),
            r.pixel_delta_v == (Vec3 {
                e0: Scalar::lit(ZERO),
                e1: Scalar::lit(PIXEL_STEP_DOWN),
                e2: Scalar::lit(ZERO),
            }),
    {
        Camera {
            aspect_ratio: Scalar::one(),
            image_width: 100,
            image_height: 100,
            samples_per_pixel: 10,
            max_depth: 10,
            center: Vec3::with_position(Scalar::zero(), Scalar::zero(), Scalar::zero()),
            pixel00_loc: Vec3::with_position(
                Scalar::from_bits(FIRST_PIXEL_LEFT),
                Scalar::from_bits(FIRST_PIXEL_UP),
                Scalar::one(),
            ),
            pixel_delta_u: Vec3::with_position(
                Scalar::from_bits(PIXEL_STEP_RIGHT),
                Scalar::zero(),
                Scalar::zero(),
            ),
            pixel_delta_v: Vec3::with_position(
                Scalar::zero(),
                Scalar::from_bits(PIXEL_STEP_DOWN),
                Scalar::zero(),
            ),
        }
    }

    /// Works out the derived fields from the settings, which stay as they
    /// are.
    pub fn initialize(&mut self)
        ensures
            *final(self) == old(self).initialized_spec(),
            final(self).is_initialized(),
            final(self).image_height >= 1,
    {
        let zero = Scalar::zero();
        let two = Scalar::from_bits(TWO);
        self.center = Vec3::with_position(zero, zero, zero);
        let rounded = (Scalar::from_usize(self.image_width) / self.aspect_ratio).round_to_usize();
        self.image_height = if rounded == 0 {
            1
        } else {
            rounded
        };
        let focal_length = Scalar::one();
        let viewport_height = two;
        let viewport_width = viewport_height * self.aspect_ratio;
        let viewport_u = Vec3::with_position(viewport_width, zero, zero);
        let viewport_v = Vec3::with_position(zero, viewport_height.neg(), zero);
        self.pixel_delta_u = viewport_u / Scalar::from_usize(self.image_width);
        self.pixel_delta_v = viewport_v / Scalar::from_usize(self.image_height);
        let viewport_upper_left = self.center - Vec3::with_position(zero, zero, focal_length)
            - viewport_u / two - viewport_v / two;
        self.pixel00_loc = viewport_upper_left + (self.pixel_delta_u + self.pixel_delta_v)
            * Scalar::from_bits(HALF);
    }

    /// The offset from a pixel's centre that the unit samples `u` and `v`
    /// pick.
    pub fn sample_square(&self, u: Scalar, v: Scalar) -> (r: Vec3)
        requires
            self.is_initialized(),
        ensures
            r == self.square_spec(u, v),
    {
        let px = Scalar::from_bits(MINUS_HALF) + u;
        let py = Scalar::from_bits(MINUS_HALF) + v;
        self.pixel_delta_u * px + self.pixel_delta_v * py
    }

    /// A random point in the square surrounding a pixel at the origin.
    pub fn pixel_sample_square(&self) -> (r: Vec3)
        requires
            self.is_initialized(),
        ensures
            exists|u: Scalar, v: Scalar|
                is_unit_sample(u) && is_unit_sample(v) && r == #[trigger] self.square_spec(u, v),
    {
        let u = random();
        let v = random();
        self.sample_square(u, v)
    }

    /// The ray from the camera's centre through the point `offset` away
    /// from the centre of pixel `i`, `j`.
    pub fn ray_through(&self, i: usize, j: usize, offset: &Vec3) -> (r: Ray)
        requires
            self.is_initialized(),
        ensures
            r == self.ray_through_spec(i as nat, j as nat, *offset),
    {
        let pixel_center = self.pixel00_loc + self.pixel_delta_u * Scalar::from_usize(i)
            + self.pixel_delta_v * Scalar::from_usize(j);
        let pixel_sample = pixel_center + offset;
        let ray_direction = pixel_sample - self.center;
        Ray::new(&self.center, &ray_direction)
    }

    /// A randomly sampled camera ray for the pixel at location `i`, `j`.
    pub fn get_ray(&self, i: usize, j: usize) -> (r: Ray)
        requires
            self.is_initialized(),
        ensures
            self.is_pixel_ray(i as nat, j as nat, r),
    {
        let (r, _samples) = self.sample_ray(i, j);
        r
    }

    /// A randomly sampled camera ray for the pixel at location `i`, `j`,
    /// with the two unit samples that picked it.
    fn sample_ray(&self, i: usize, j: usize) -> (res: (Ray, Ghost<(Scalar, Scalar)>))
        requires
            self.is_initialized(),
        ensures
            is_unit_sample(res.1@.0),
            is_unit_sample(res.1@.1),
            res.0 == self.ray_through_spec(
                i as nat,
                j as nat,
                self.square_spec(res.1@.0, res.1@.1),
            ),
    {
        let u = random();
        let v = random();
        let offset = self.sample_square(u, v);
        (self.ray_through(i, j, &offset), Ghost((u, v)))
    }

    /// Whether `d` is what chance may contribute to one sample of a pixel.
    pub open spec fn is_draw(self, d: Draw) -> bool {
        &&& is_unit_sample(d.0)
        &&& is_unit_sample(d.1)
        &&& d.2.len() == bounces(self.max_depth as int)
        &&& all_in_unit_sphere(d.2)
    }

    /// Whether `draws` is what chance may contribute to one pixel: one draw
    /// for each of its samples.
    pub open spec fn are_draws(self, draws: Seq<Draw>) -> bool {
        &&& draws.len() == self.samples_per_pixel
        &&& forall|k: int| 0 <= k < draws.len() ==> self.is_draw(#[trigger] draws[k])
    }

    /// The colour of one sample of pixel `i`, `j`: what the ray that the
    /// draw's unit samples pick brings back along the draw's points.
    pub open spec fn sample_color<T: Hitable>(
        self,
        world: &HitableList<T>,
        i: nat,
        j: nat,
        d: Draw,
    ) -> Vec3 {
        color_along(
            world,
            self.ray_through_spec(i, j, self.square_spec(d.0, d.1)),
            self.max_depth as int,
            d.2,
        )
    }

    /// The sum of the sample colours of pixel `i`, `j`, added from the
    /// first draw on to black.
    pub open spec fn pixel_sum<T: Hitable>(
        self,
        world: &HitableList<T>,
        i: nat,
        j: nat,
        draws: Seq<Draw>,
    ) -> Vec3
        decreases draws.len(),
    {
        if draws.len() == 0 {
            Vec3::zero_spec()
        } else {
            self.pixel_sum(world, i, j, draws.drop_last()).add_spec(
                self.sample_color(world, i, j, draws.last()),
            )
        }
    }

    /// `c` is a sum of sample colours that pixel `i`, `j` can have.
    pub open spec fn is_pixel_color<T: Hitable>(
        self,
        world: &HitableList<T>,
        i: nat,
        j: nat,
        c: Vec3,
    ) -> bool {
        exists|draws: Seq<Draw>|
            self.are_draws(draws) && c == #[trigger] self.pixel_sum(world, i, j, draws)
    }

    /// `colors` holds, scanline after scanline from the top and from left
    /// to right in each, a sum of sample colours for every pixel.
    pub open spec fn is_image<T: Hitable>(self, world: &HitableList<T>, colors: Seq<Vec3>) -> bool {
        &&& colors.len() == self.image_width * self.image_height
        &&& forall|i: nat, j: nat|
            i < self.image_width && j < self.image_height ==> self.is_pixel_color(
                world,
                i,
                j,
                #[trigger] colors[pixel_index(self.image_width as nat, i, j)],
            )
    }

    /// The text of the image file for the summed colours of its pixels.
    pub open spec fn image_text(self, colors: Seq<Vec3>) -> Seq<char> {
        header_text(self.image_width as nat, self.image_height as nat) + pixel_lines(
            colors,
            self.samples_per_pixel as nat,
        )
    }

    /// The summed colour of pixel `i`, `j`: `samples_per_pixel` rays are
    /// sent through it and what they bring back is added up.
    pub fn pixel_color<T: Hitable>(&self, i: usize, j: usize, world: &HitableList<T>) -> (c: Vec3)
        requires
            self.is_initialized(),
        ensures
            self.is_pixel_color(world, i as nat, j as nat, c),
    {
        let mut c = Vec3::new();
        let ghost mut draws: Seq<Draw> = Seq::empty();
        let mut n: usize = 0;
        while n < self.samples_per_pixel
            invariant
                self.is_initialized(),
                n <= self.samples_per_pixel,
                draws.len() == n,
                forall|k: int| 0 <= k < draws.len() ==> self.is_draw(#[trigger] draws[k]),
                c == self.pixel_sum(world, i as nat, j as nat, draws),
            decreases self.samples_per_pixel - n,
        {
            let (r, Ghost(samples)) = self.sample_ray(i, j);
            let (s, Ghost(points)) = trace(&r, self.max_depth, world);
            proof {
                let d = (samples.0, samples.1, points);
                let next = draws.push(d);
                assert(next.drop_last() =~= draws);
                assert(next.last() == d);
                draws = next;
            }
            c = c + s;
            n = n + 1;
        }
        c
    }

    /// The first lines of the image file: the format, the width and the
    /// height, and the largest channel value.
    pub fn header(&self) -> (r: String)
        requires
            self.is_initialized(),
        ensures
            r@ == header_text(self.image_width as nat, self.image_height as nat),
    {
        proof {
            reveal_strlit("P3\n");
            reveal_strlit("\n255\n");
        }
        let mut s = String::from_str("P3\n");
        assert(s@ =~= seq!['P', '3', '\n']);
        append_decimal(&mut s, self.image_width as u64);
        append_space(&mut s);
        append_decimal(&mut s, self.image_height as u64);
        s.append("\n255\n");
        assert(s@ =~= header_text(self.image_width as nat, self.image_height as nat));
        s
    }

    /// Renders `world` and hands back the text of the image file: the
    /// header, then one line for each pixel, scanline after scanline from
    /// the top and from left to right in each.
    pub fn render<T: Hitable>(&mut self, world: &HitableList<T>) -> (text: String)
        ensures
            *final(self) == old(self).initialized_spec(),
            final(self).is_initialized(),
            exists|colors: Seq<Vec3>|
                final(self).is_image(world, colors) && text@ == #[trigger] final(self).image_text(
                    colors,
                ),
    {
        self.initialize();
        let mut text = self.header();
        let ghost cam = *self;
        let ghost mut colors: Seq<Vec3> = Seq::empty();
        let w = self.image_width;
        let h = self.image_height;
        let spp = self.samples_per_pixel;
        proof {
            lemma_pixel_index_rows(w as nat, 0);
            assert(text@ =~= cam.image_text(colors));
        }
        let mut j: usize = 0;
        while j < h
            invariant
                j <= h,
                *self == cam,
                cam.is_initialized(),
                w == cam.image_width,
                h == cam.image_height,
                spp == cam.samples_per_pixel,
                colors.len() == pixel_index(w as nat, 0, j as nat),
                forall|ii: nat, jj: nat|
                    ii < w && jj < j ==> cam.is_pixel_color(
                        world,
                        ii,
                        jj,
                        #[trigger] colors[pixel_index(w as nat, ii, jj)],
                    ),
                text@ == cam.image_text(colors),
            decreases h - j,
        {
            let mut i: usize = 0;
            while i < w
                invariant
                    i <= w,
                    j < h,
                    *self == cam,
                    cam.is_initialized(),
                    w == cam.image_width,
                    h == cam.image_height,
                    spp == cam.samples_per_pixel,
                    colors.len() == pixel_index(w as nat, i as nat, j as nat),
                    forall|ii: nat, jj: nat|
                        ii < w && (jj < j || (jj == j && ii < i)) ==> cam.is_pixel_color(
                            world,
                            ii,
                            jj,
                            #[trigger] colors[pixel_index(w as nat, ii, jj)],
                        ),
                    text@ == cam.image_text(colors),
                decreases w - i,
            {
                let c = self.pixel_color(i, j, world);
                let line = c.write_color(spp);
                text.append(line.as_str());
                append_newline(&mut text);
                proof {
                    let next = colors.push(c);
                    assert(next.drop_last() =~= colors);
                    assert(next.last() == c);
                    assert(text@ =~= cam.image_text(next));
                    assert forall|ii: nat, jj: nat|
                        ii < w && (jj < j || (jj == j && ii < i + 1)) implies cam.is_pixel_color(
                        world,
                        ii,
                        jj,
                        #[trigger] next[pixel_index(w as nat, ii, jj)],
                    ) by {
                        if jj < j || ii < i {
                            lemma_pixel_index_before(w as nat, ii, jj, i as nat, j as nat);
                        }
                    }
                    colors = next;
                }
                i = i + 1;
            }
            proof {
                lemma_pixel_index_rows(w as nat, j as nat + 1);
            }
            j = j + 1;
        }
        proof {
            lemma_pixel_index_rows(w as nat, h as nat);
            assert(colors.len() == w * h);
            assert(cam.is_image(world, colors));
        }
        text
    }

    /// The colour that `r` brings back from `world`, following it for at
    /// most `depth` bounces.
    pub fn ray_color<T: Hitable>(&self, r: &Ray, depth: isize, world: &HitableList<T>) -> (c: Vec3)
        ensures
            is_ray_color(world, *r, depth as int, c),
            depth <= 0 ==> c == Vec3::zero_spec(),
            depth > 0 && world.hit_spec(*r, forward_spec()) is None ==> c == sky_spec(*r),
    {
        let (c, _points) = trace(r, depth, world);
        c
    }
}

/// Follows `r` through `world` for at most `depth` bounces, and keeps in
/// `points` what chance picked on the way.
fn trace<T: Hitable>(r: &Ray, depth: isize, world: &HitableList<T>) -> (res: (
    Vec3,
    Ghost<Seq<Vec3>>,
))
    ensures
        res.1@.len() == bounces(depth as int),
        all_in_unit_sphere(res.1@),
        res.0 == color_along(world, *r, depth as int, res.1@),
    decreases depth,
{
    if depth <= 0 {
        return (
            Vec3::with_color(Scalar::zero(), Scalar::zero(), Scalar::zero()),
            Ghost(Seq::empty()),
        );
    }
    let forward = Interval::with_min_max(Scalar::zero(), Scalar::infinity());
    match world.hit(r, &forward) {
        Some(rec) => {
            let direction = Vec3::random_on_hemisphere(&rec.normal);
            let scattered = Ray::new(&rec.p, &direction);
            let (inner, Ghost(rest)) = trace(&scattered, depth - 1, world);
            let ghost p = choose|p: Vec3|
                p.in_unit_sphere_spec() && direction == Vec3::toward_spec(
                    #[trigger] Vec3::unit_vector_spec(p),
                    rec.normal,
                );
            let ghost points = seq![p] + rest;
            proof {
                assert(points[0] == p);
                assert(points.skip(1) =~= rest);
                assert(scattered == scatter_spec(rec, points[0]));
            }
            (inner * Scalar::from_bits(HALF), Ghost(points))
        },
        None => {
            let ghost points = Seq::new(bounces(depth as int), |i: int| Vec3::zero_spec());
            proof {
                crate::vec3::lemma_centre_in_unit_sphere();
            }
            (sky_color(r), Ghost(points))
        },
    }
}

/// Initializing a camera that is initialized already changes nothing.
pub proof fn lemma_initialize_idempotent(c: Camera)
    ensures
        c.initialized_spec().initialized_spec() == c.initialized_spec(),
{
}

/// With no bounce left, a ray brings back black from any scene.
pub proof fn lemma_no_bounce_is_black<T: Hitable>(
    world: &HitableList<T>,
    r: Ray,
    depth: int,
    c: Vec3,
)
    requires
        depth <= 0,
        is_ray_color(world, r, depth, c),
    ensures
        c == Vec3::zero_spec(),
{
}

/// From a scene without surfaces a ray with a bounce left brings back the
/// colour of the sky.
pub proof fn lemma_empty_scene_is_sky<T: Hitable>(
    world: &HitableList<T>,
    r: Ray,
    depth: int,
    c: Vec3,
)
    requires
        depth > 0,
        world.objects@.len() == 0,
        is_ray_color(world, r, depth, c),
    ensures
        c == sky_spec(r),
{
}

/// Where a ray hits, what it brings back is half of what the scattered ray
/// brings back.
pub proof fn lemma_bounce_halves<T: Hitable>(
    world: &HitableList<T>,
    r: Ray,
    depth: int,
    points: Seq<Vec3>,
)
    requires
        depth > 0,
        world.hit_spec(r, forward_spec()) is Some,
    ensures
        color_along(world, r, depth, points) == color_along(
            world,
            scatter_spec(world.hit_spec(r, forward_spec())->0, points[0]),
            depth - 1,
            points.skip(1),
        ).mul_spec(Scalar::lit(HALF)),
{
}

} // verus!
