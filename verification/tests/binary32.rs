use maratui::binary32::Binary32;

struct Random(u64);

impl Random {
    fn next(&mut self) -> u64 {
        self.0 ^= self.0 << 13;
        self.0 ^= self.0 >> 7;
        self.0 ^= self.0 << 17;
        self.0
    }
}

fn single(x: f32) -> Binary32 {
    Binary32::from_bits(x.to_bits())
}

/// The same number, bit for bit, or both no number at all.
fn same(got: Binary32, expected: f32) -> bool {
    let got = f32::from_bits(got.to_bits());
    got.to_bits() == expected.to_bits() || got.is_nan() && expected.is_nan()
}

const EDGES: [u32; 24] = [
    0x0000_0000, 0x8000_0000, 0x0000_0001, 0x8000_0001, 0x007f_ffff, 0x0080_0000, 0x0080_0001,
    0x00ff_ffff, 0x3380_0000, 0x3400_0000, 0x3400_0001, 0x3f00_0000, 0x3eff_ffff, 0x3f7f_ffff,
    0x3f80_0000, 0x3f80_0001, 0xbf80_0000, 0x4f00_0000, 0xcf00_0000, 0x7f7f_ffff, 0x7f80_0000,
    0xff80_0000, 0x7fc0_0000, 0xffc0_0001,
];

fn compare(a: u32, b: u32) {
    let (x, y) = (f32::from_bits(a), f32::from_bits(b));
    let (p, q) = (Binary32::from_bits(a), Binary32::from_bits(b));
    assert!(same(p.times(q), x * y), "{:08x} * {:08x}", a, b);
    assert!(same(p.over(q), x / y), "{:08x} / {:08x}", a, b);
    assert!(same(p.plus(q), x + y), "{:08x} + {:08x}", a, b);
    assert!(same(p.minus(q), x - y), "{:08x} - {:08x}", a, b);
    assert_eq!(p == q, x == y, "{:08x} == {:08x}", a, b);
}

#[test]
fn edges_agree_with_the_processor() {
    for a in EDGES {
        for b in EDGES {
            compare(a, b);
        }
    }
}

#[test]
fn random_operands_agree_with_the_processor() {
    let mut random = Random(0x9e37_79b9_7f4a_7c15);
    for _ in 0..300_000 {
        let bits = random.next();
        compare(bits as u32, (bits >> 32) as u32);
    }
}

#[test]
fn close_operands_agree_with_the_processor() {
    let mut random = Random(0xdead_beef_1234);
    for _ in 0..300_000 {
        let bits = random.next();
        let a = bits as u32;
        let exponent = (((a >> 23) & 0xff) as i32 + ((bits >> 60) as i32) - 8).clamp(0, 254) as u32;
        let b = ((bits >> 32) as u32 & 0x807f_ffff) | (exponent << 23);
        compare(a, b);
    }
}

#[test]
fn unary_operations_agree_with_the_processor() {
    let mut random = Random(0x5555_1234_9999);
    let mut samples: Vec<u32> = EDGES.to_vec();
    for _ in 0..300_000 {
        samples.push(random.next() as u32);
        // Around the range of whole numbers.
        samples.push((0x3e00_0000 + random.next() % 0x1200_0000) as u32);
    }
    for bits in samples {
        let (x, p) = (f32::from_bits(bits), Binary32::from_bits(bits));
        assert_eq!(p.to_bits(), bits);
        assert_eq!(p.is_finite(), x.is_finite());
        assert_eq!(p.exceeds_epsilon(), x > f32::EPSILON);
        assert!(same(p.abs(), x.abs()));
        assert_eq!(p.round_to_i32(), x.round() as i32, "{}", x);
    }
}

#[test]
fn whole_numbers_are_rounded_to_the_nearest() {
    let mut random = Random(0x1357_9bdf);
    for n in [0, 1, -1, 10, 500, 16_777_216, 16_777_217, 16_777_219, i32::MAX, i32::MIN, -8_388_608] {
        assert_eq!(Binary32::from_i32(n).to_bits(), (n as f32).to_bits());
    }
    for _ in 0..300_000 {
        let n = (random.next() as i32) >> (random.next() % 31);
        assert_eq!(Binary32::from_i32(n).to_bits(), (n as f32).to_bits());
    }
}

#[test]
fn halves_round_away_from_zero() {
    for (x, n) in [(0.5, 1), (-0.5, -1), (2.5, 3), (-2.5, -3), (0.49999997, 0), (1.4, 1)] {
        assert_eq!(single(x).round_to_i32(), n);
    }
    assert_eq!(single(3.0e9).round_to_i32(), i32::MAX);
    assert_eq!(single(-3.0e9).round_to_i32(), i32::MIN);
    assert_eq!(single(f32::NAN).round_to_i32(), 0);
}
