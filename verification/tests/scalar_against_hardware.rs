//! The library's arithmetic, held against the machine's binary32 arithmetic
//! on special values and on a long pseudo-random run of bit patterns.
use raytracer::scalar::Scalar;

struct Patterns {
    state: u64,
}

impl Patterns {
    fn new(seed: u64) -> Self {
        Patterns { state: seed }
    }

    fn next(&mut self) -> u32 {
        self.state = self.state.wrapping_mul(6364136223846793005).wrapping_add(1442695040888963407);
        let raw = (self.state >> 32) as u32;
        // A third of the draws are squeezed towards exponents near one, so
        // that sums and differences meet operands of like size.
        match self.state % 3 {
            0 => (raw & 0x807f_ffff) | (((raw >> 23) % 40 + 107) << 23),
            _ => raw,
        }
    }
}

fn specials() -> Vec<u32> {
    vec![
        0x0000_0000, 0x8000_0000, 0x0000_0001, 0x8000_0001, 0x007f_ffff, 0x0080_0000, 0x0080_0001,
        0x00ff_ffff, 0x0100_0000, 0x3f80_0000, 0xbf80_0000, 0x3f7f_ffff, 0x3f80_0001, 0x4000_0000,
        0x3f00_0000, 0x7f7f_ffff, 0xff7f_ffff, 0x7f80_0000, 0xff80_0000, 0x7fc0_0000, 0xffc0_0000,
        0x7f80_0001, 0x4b00_0000, 0x4b80_0000, 0x3400_0000, 0x3380_0000, 0x7f00_0000, 0x0040_0000,
        0x3eaa_aaab, 0x4049_0fdb, 0x5f00_0000, 0x5f80_0000, 0x1f80_0000, 0x2000_0000,
    ]
}

fn same(got: Scalar, want: f32) -> bool {
    if want.is_nan() {
        f32::from_bits(got.to_bits()).is_nan()
    } else {
        got.to_bits() == want.to_bits()
    }
}

fn check_pair(a: u32, b: u32) {
    let (x, y) = (Scalar::from_bits(a), Scalar::from_bits(b));
    let (fx, fy) = (f32::from_bits(a), f32::from_bits(b));
    assert!(same(x.add(y), fx + fy), "{:#x} + {:#x}: {:#x}", a, b, x.add(y).to_bits());
    assert!(same(x.sub(y), fx - fy), "{:#x} - {:#x}: {:#x}", a, b, x.sub(y).to_bits());
    assert!(same(x.mul(y), fx * fy), "{:#x} * {:#x}: {:#x}", a, b, x.mul(y).to_bits());
    assert!(same(x.div(y), fx / fy), "{:#x} / {:#x}: {:#x}", a, b, x.div(y).to_bits());
    assert_eq!(x.lt(y), fx < fy, "{:#x} < {:#x}", a, b);
    assert_eq!(x.le(y), fx <= fy, "{:#x} <= {:#x}", a, b);
    assert_eq!(x.gt(y), fx > fy, "{:#x} > {:#x}", a, b);
    assert_eq!(x.ge(y), fx >= fy, "{:#x} >= {:#x}", a, b);
    assert_eq!(x.eq(y), fx == fy, "{:#x} == {:#x}", a, b);
}

fn check_one(a: u32) {
    let x = Scalar::from_bits(a);
    let fx = f32::from_bits(a);
    assert!(same(x.sqrt(), fx.sqrt()), "sqrt {:#x}: {:#x}", a, x.sqrt().to_bits());
    assert!(same(x.neg(), -fx), "neg {:#x}", a);
    assert_eq!(x.to_u8(), fx as u8, "{:#x} as u8", a);
    assert_eq!(x.to_u64(), fx as u64, "{:#x} as u64", a);
    assert_eq!(x.to_usize(), fx as usize, "{:#x} as usize", a);
    assert_eq!(x.round_to_usize(), fx.round() as usize, "{:#x} rounded", a);
    assert_eq!(x.is_nan(), fx.is_nan());
    assert_eq!(x.is_infinite(), fx.is_infinite());
    assert_eq!(x.is_finite(), fx.is_finite());
    assert_eq!(x.is_sign_negative(), fx.is_sign_negative());
}

#[test]
fn special_values_agree_with_hardware() {
    let s = specials();
    for &a in s.iter() {
        check_one(a);
        for &b in s.iter() {
            check_pair(a, b);
        }
    }
}

#[test]
fn random_pairs_agree_with_hardware() {
    let mut p = Patterns::new(0x5eed);
    for _ in 0..200_000 {
        let a = p.next();
        let b = p.next();
        check_pair(a, b);
    }
}

#[test]
fn random_values_against_specials_agree_with_hardware() {
    let mut p = Patterns::new(77);
    let s = specials();
    for _ in 0..3_000 {
        let a = p.next();
        for &b in s.iter() {
            check_pair(a, b);
            check_pair(b, a);
        }
    }
}

#[test]
fn random_unary_operations_agree_with_hardware() {
    let mut p = Patterns::new(12345);
    for _ in 0..300_000 {
        check_one(p.next());
    }
}

#[test]
fn nearby_operands_agree_with_hardware() {
    // Operands a few units in the last place apart cancel almost entirely.
    let mut p = Patterns::new(99);
    for _ in 0..100_000 {
        let a = p.next();
        let step = p.next() % 64;
        let b = a.wrapping_add(step) ^ ((p.next() & 1) << 31);
        check_pair(a, b);
    }
}

#[test]
fn integers_convert_as_on_hardware() {
    let mut p = Patterns::new(4242);
    for n in 0..5000u64 {
        assert_eq!(Scalar::from_u64(n).to_bits(), (n as f32).to_bits());
    }
    for _ in 0..100_000 {
        let n = ((p.next() as u64) << 32 | p.next() as u64) >> (p.next() % 64);
        assert_eq!(Scalar::from_u64(n).to_bits(), (n as f32).to_bits(), "{}", n);
        let m = n as usize;
        assert_eq!(Scalar::from_usize(m).to_bits(), (m as f32).to_bits(), "{}", m);
    }
    assert_eq!(Scalar::from_u64(u64::MAX).to_bits(), (u64::MAX as f32).to_bits());
    assert_eq!(Scalar::from_u64(16_777_217).to_bits(), 16_777_216f32.to_bits());
    assert_eq!(Scalar::from_u64(16_777_219).to_bits(), 16_777_220f32.to_bits());
}

#[test]
fn unit_fractions_are_exact() {
    assert_eq!(Scalar::unit_fraction(0).to_bits(), 0.0f32.to_bits());
    assert_eq!(Scalar::unit_fraction(1).to_bits(), (1.0f32 / 16_777_216.0).to_bits());
    assert_eq!(Scalar::unit_fraction(0x80_0000).to_bits(), 0.5f32.to_bits());
    assert_eq!(Scalar::unit_fraction(0xff_ffff).to_bits(), 0x3f7f_ffff);
    let mut p = Patterns::new(7);
    for _ in 0..100_000 {
        let t = p.next() >> 8;
        let want = (t as f32) * (1.0 / 16_777_216.0);
        assert_eq!(Scalar::unit_fraction(t).to_bits(), want.to_bits());
    }
}
