use zui::float::Float32;

fn f(x: f32) -> Float32 {
    Float32::from_bits(x.to_bits())
}

fn same(actual: Float32, expected: f32) -> bool {
    if expected.is_nan() {
        actual.is_nan()
    } else {
        actual.to_bits() == expected.to_bits()
    }
}

/// Interesting encodings, and a spread of all others.
fn samples() -> Vec<f32> {
    let mut bits = vec![
        0u32, 1, 2, 0x7f_ffff, 0x80_0000, 0x80_0001, 0x3f80_0000, 0x3f80_0001, 0x3f7f_ffff,
        0x3f00_0000, 0x4b00_0000, 0x4b7f_ffff, 0x4b80_0000, 0x4b00_0001, 0x4f80_0000, 0x5f00_0000,
        0x5eff_ffff, 0x7f7f_ffff, 0x7f80_0000, 0x7fc0_0000, 0x7f80_0001, 0x3ea0_0000, 0x4049_0fdb,
        0x0000_1000, 0x4f7f_ffff, 0x4f00_0000, 0x3fc0_0000, 0x4020_0000,
    ];
    let mut state: u32 = 0x1234_5678;
    for _ in 0..90 {
        state = state.wrapping_mul(1_664_525).wrapping_add(1_013_904_223);
        bits.push(state & 0x7fff_ffff);
        // Near one, where sums and products round.
        bits.push((state & 0x03ff_ffff) + 0x3e00_0000);
    }
    bits.iter()
        .flat_map(|b| [f32::from_bits(*b), f32::from_bits(*b | 0x8000_0000)])
        .collect()
}

#[test]
fn arithmetic_agrees_with_the_machine() {
    let values = samples();
    for &a in &values {
        for &b in &values {
            assert!(same(f(a).plus(f(b)), a + b), "{a:e} + {b:e}");
            assert!(same(f(a).minus(f(b)), a - b), "{a:e} - {b:e}");
            assert!(same(f(a).times(f(b)), a * b), "{a:e} * {b:e}");
            assert!(same(f(a).over(f(b)), a / b), "{a:e} / {b:e}");
        }
    }
}

#[test]
fn comparisons_agree_with_the_machine() {
    let values = samples();
    for &a in &values {
        for &b in &values {
            assert_eq!(f(a).less(f(b)), a < b);
            assert_eq!(f(a).at_most(f(b)), a <= b);
            assert_eq!(f(a).equals(f(b)), a == b);
            if a != b || a.to_bits() == b.to_bits() {
                assert!(same(f(a).larger(f(b)), a.max(b)), "max {a:e} {b:e}");
                assert!(same(f(a).smaller(f(b)), a.min(b)), "min {a:e} {b:e}");
            }
            if a <= b {
                assert!(same(f(0.75).clamped(f(a), f(b)), 0.75f32.clamp(a, b)));
            }
        }
    }
}

#[test]
fn conversions_agree_with_the_machine() {
    for a in samples() {
        assert!(same(f(a).floored(), a.floor()), "floor {a:e}");
        assert!(same(f(a).ceiled(), a.ceil()), "ceil {a:e}");
        assert!(same(f(a).negated(), -a));
        assert!(same(f(a).absolute(), a.abs()));
        assert_eq!(f(a).to_u32(), a as u32);
        assert_eq!(f(a).to_i64(), a as i64);
        assert_eq!(f(a).is_nan(), a.is_nan());
        assert_eq!(f(a).is_finite(), a.is_finite());
        let n = a.to_bits();
        assert!(same(Float32::from_u32(n), n as f32), "{n}");
        let small = n & 0xff_ffff;
        assert!(same(Float32::whole(small), small as f32));
    }
    assert!(same(Float32::half(), 0.5));
    assert!(same(Float32::zero(), 0.0));
    assert!(same(Float32::whole(0x100_0000), 16_777_216.0));
}
