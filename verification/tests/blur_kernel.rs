use zui::blur_kernel::{
    blur_regions, gaussian_weights, kernel_exponent, precomputed_radius, KERNEL_VECTORS,
    MAX_KERNEL_RADIUS,
};
use zui::float::Float32;

fn f(x: f32) -> Float32 {
    Float32::from_bits(x.to_bits())
}

fn value(x: Float32) -> f32 {
    f32::from_bits(x.to_bits())
}

/// The weights for a deviation, with the exponentials that they are made of.
fn weights_for(sigma: f32) -> [[f32; 4]; KERNEL_VECTORS] {
    let mut samples = Vec::new();
    if let Some(radius) = precomputed_radius(f(sigma)) {
        for k in 0..=radius as u32 {
            samples.push(f(value(kernel_exponent(f(sigma), k)).exp()));
        }
    }
    gaussian_weights(f(sigma), &samples).map(|row| row.map(value))
}

fn regions(
    visible: [f32; 4],
    source: [u32; 4],
    output: [u32; 2],
    sigma: f32,
) -> ([u32; 4], [u32; 4]) {
    blur_regions(visible.map(f), source, output, f(sigma))
}

#[test]
fn regions_cover_composite_samples_and_every_vertical_tap() {
    for source_size in [[1024, 256], [1279, 799], [17, 13]] {
        for downsample in 1..=4 {
            let output = source_size.map(|n: u32| n.div_ceil(downsample));
            for sigma in [0.5, 8.0, 16.0, 100.0] {
                for origin in [[0.0, 0.0], [31.25, 17.75], [-20.0, -10.0]] {
                    let visible = [origin[0], origin[1], 736.5, 48.5];
                    let (h, v) = regions(
                        visible,
                        [0, 0, source_size[0], source_size[1]],
                        output,
                        sigma,
                    );
                    let inside = |rect: [u32; 4], axis: usize, pixel: i64| {
                        let pixel = pixel.clamp(0, output[axis] as i64 - 1) as u32;
                        pixel >= rect[axis] && pixel < rect[axis] + rect[axis + 2]
                    };
                    for axis in 0..2 {
                        for sample in 0..=100 {
                            let point = visible[axis] + visible[axis + 2] * sample as f32 / 100.0;
                            if point < 0.0 || point >= source_size[axis] as f32 {
                                continue;
                            }
                            let texel =
                                point * output[axis] as f32 / source_size[axis] as f32 - 0.5;
                            assert!(inside(v, axis, texel.floor() as i64));
                            assert!(inside(v, axis, texel.floor() as i64 + 1));
                        }
                        let radius = if axis == 0 { 0 } else { (3.0 * sigma).ceil() as i64 };
                        for pixel in v[axis]..v[axis] + v[axis + 2] {
                            for offset in -radius..=radius {
                                assert!(inside(h, axis, pixel as i64 + offset));
                            }
                        }
                    }
                }
            }
        }
    }
}

#[test]
fn regions_are_invariant_under_snapshot_translation() {
    for offset in [[0, 0], [123, 456], [2000, 1000]] {
        assert_eq!(
            regions([31.25, 17.75, 736.5, 48.5], [0, 0, 1024, 256], [512, 128], 8.0),
            regions(
                [31.25 + offset[0] as f32, 17.75 + offset[1] as f32, 736.5, 48.5],
                [offset[0], offset[1], 1024, 256],
                [512, 128],
                8.0
            ),
        );
    }
}

#[test]
fn cached_kernel_matches_original_convolution() {
    // Cover fractional/device-scaled radii, both shipping surface blurs,
    // and the largest cached kernel. Inputs include edges and texture.
    for sigma in [0.5, 0.75, 1.0, 3.2, 8.0, 11.0, 16.0, 32.0, 42.5] {
        let radius = (sigma * 3.0_f32).ceil() as i32;
        let weights = weights_for(sigma);
        for seed in 0..100 {
            let mut expected = 0.0;
            let mut total = 0.0;
            let mut actual = 0.0;
            for k in -radius..=radius {
                let sample = ((k * 73 + seed * 37).rem_euclid(256)) as f32 / 255.0;
                let weight = (-(k as f32) * k as f32 / (2.0 * sigma * sigma)).exp();
                expected += sample * weight;
                total += weight;
                let ix = k.unsigned_abs() as usize;
                actual += sample * weights[ix / 4][ix % 4];
            }
            assert!((expected / total - actual).abs() < 0.000002);
        }
    }
}

#[test]
fn oversized_kernel_preserves_shader_fallback() {
    assert_eq!(weights_for(100.0), [[0.0; 4]; KERNEL_VECTORS]);
}

#[test]
fn paired_linear_samples_preserve_kernel_at_texture_edges() {
    let texels: Vec<f32> = (0..64).map(|x| ((x * 73) % 256) as f32 / 255.0).collect();
    let sample = |x: f32| {
        let x = x.clamp(0.0, (texels.len() - 1) as f32);
        let i = x.floor() as usize;
        let a = texels[i];
        let b = texels[(i + 1).min(texels.len() - 1)];
        a + (b - a) * x.fract()
    };
    for sigma in [0.5, 0.75, 1.0, 3.2, 8.0, 11.0, 16.0, 32.0, 42.5] {
        let radius = (sigma * 3.0_f32).ceil() as i32;
        let weights = weights_for(sigma);
        let weight = |k: usize| weights[k / 4][k % 4];
        for center in 0..64 {
            let center = center as f32;
            let expected: f32 = (-radius..=radius)
                .map(|k| sample(center + k as f32) * weight(k.unsigned_abs() as usize))
                .sum();
            let mut actual = sample(center) * weight(0);
            for k in (1..=radius as usize).step_by(2) {
                let combined = weight(k) + weight(k + 1);
                let offset = k as f32 + weight(k + 1) / combined;
                actual += (sample(center + offset) + sample(center - offset)) * combined;
            }
            assert!(
                (expected - actual).abs() < 0.000002,
                "sigma={sigma}, center={center}: {expected} vs {actual}"
            );
        }
    }
}

#[test]
fn weights_are_those_of_the_machine() {
    for sigma in [0.1_f32, 0.5, 0.75, 3.2, 8.0, 42.5] {
        let deviation = sigma.max(0.5);
        let radius = (deviation * 3.0).ceil() as i32;
        assert_eq!(precomputed_radius(f(sigma)), Some(radius as usize));
        let mut total = 0.0_f32;
        for k in -radius..=radius {
            total += (-(k as f32) * k as f32 / (2.0 * deviation * deviation)).exp();
        }
        let weights = weights_for(sigma);
        for k in 0..4 * KERNEL_VECTORS {
            let expected = if k <= radius as usize {
                (-(k as f32) * k as f32 / (2.0 * deviation * deviation)).exp() / total
            } else {
                0.0
            };
            assert_eq!(weights[k / 4][k % 4], expected);
        }
    }
}

#[test]
fn radius_is_three_deviations_up_to_the_limit() {
    assert_eq!(precomputed_radius(f(0.0)), Some(2));
    assert_eq!(precomputed_radius(f(f32::NAN)), Some(2));
    assert_eq!(precomputed_radius(f(8.0)), Some(24));
    assert_eq!(precomputed_radius(f(42.5)), Some(MAX_KERNEL_RADIUS));
    assert_eq!(precomputed_radius(f(43.0)), None);
    assert_eq!(precomputed_radius(f(f32::INFINITY)), None);
}

#[test]
fn regions_have_exact_positions() {
    // The visible part maps to texels 15.625 to 383.875 and 8.875 to 33.125.
    assert_eq!(
        regions([31.25, 17.75, 736.5, 48.5], [0, 0, 1024, 256], [512, 128], 8.0),
        ([13, 0, 373, 60], [14, 7, 371, 28])
    );
    // Everything is clamped to the textures.
    assert_eq!(
        regions([-50.0, -50.0, 5000.0, 5000.0], [0, 0, 100, 80], [50, 40], 2.0),
        ([0, 0, 50, 40], [0, 0, 50, 40])
    );
    // What is beyond the source leaves nothing to the vertical pass.
    let (_, v) = regions([500.0, 0.0, 10.0, 10.0], [0, 0, 100, 80], [100, 80], 1.0);
    assert_eq!(v, [100, 0, 0, 11]);
    // Positions that no integer holds saturate.
    let (h, v) = regions([-1e30, f32::NAN, 1e30, 1.0], [0, 0, 100, 80], [100, 80], 1e30);
    assert_eq!(v, [0, 0, 1, 1]);
    assert_eq!(h, [0, 0, 2, 80]);
}

#[test]
fn vertical_region_lies_in_the_horizontal_one() {
    for x in [-40.0, 0.0, 3.3, 77.7, 200.0] {
        for sigma in [0.0, 0.5, 4.0, 1e9] {
            let (h, v) = regions([x, x, 40.0, 30.0], [0, 0, 128, 96], [64, 48], sigma);
            for axis in 0..2 {
                let end = |r: [u32; 4]| r[axis] + r[axis + 2];
                assert!(h[axis] <= v[axis] && end(v) <= end(h));
                assert!(end(h) <= [64, 48][axis]);
            }
        }
    }
}

/// The samples of a deviation, and others that no exponential gives.
fn sample_lists(sigma: f32, radius: usize) -> Vec<Vec<f32>> {
    let exponentials =
        (0..=radius as u32).map(|k| value(kernel_exponent(f(sigma), k)).exp()).collect();
    let steps = (0..=radius).map(|k| 1.0 / (k + 1) as f32).collect();
    let mut middle = vec![0.0; radius + 1];
    middle[0] = 3.5;
    let tiny = vec![f32::from_bits(1); radius + 1];
    vec![exponentials, steps, middle, tiny, vec![1e36; radius + 1]]
}

#[test]
fn weights_are_normalized() {
    for sigma in [0.5, 0.75, 3.2, 8.0, 42.5] {
        let radius = precomputed_radius(f(sigma)).unwrap();
        for list in sample_lists(sigma, radius) {
            let samples: Vec<Float32> = list.iter().map(|x| f(*x)).collect();
            let weights = gaussian_weights(f(sigma), &samples).map(|row| row.map(value));
            let weight = |k: usize| weights[k / 4][k % 4] as f64;
            let mut sum = weight(0);
            for k in 1..=radius {
                assert!(0.0 <= weight(k) && weight(k) <= weight(k - 1));
                sum += 2.0 * weight(k);
            }
            assert!(weight(0) <= 1.0);
            assert!((sum - 1.0).abs() <= (2 * radius + 2) as f64 / 16777216.0);
            for k in radius + 1..4 * KERNEL_VECTORS {
                assert_eq!(weights[k / 4][k % 4].to_bits(), 0);
            }
        }
    }
}

#[test]
fn weights_of_equal_samples_are_equal_shares() {
    let weights = gaussian_weights(f(0.5), &vec![f(2.0); 3]).map(|row| row.map(value));
    assert_eq!(weights[0], [0.2, 0.2, 0.2, 0.0]);
    let mut middle = vec![f(0.0); 3];
    middle[0] = f(7.0);
    let weights = gaussian_weights(f(0.5), &middle).map(|row| row.map(value));
    assert_eq!(weights[0], [1.0, 0.0, 0.0, 0.0]);
}

#[test]
fn weights_blur_like_their_samples() {
    for sigma in [0.5, 3.2, 16.0, 42.5] {
        let radius = precomputed_radius(f(sigma)).unwrap();
        for list in sample_lists(sigma, radius) {
            let samples: Vec<Float32> = list.iter().map(|x| f(*x)).collect();
            let weights = gaussian_weights(f(sigma), &samples).map(|row| row.map(value));
            let (mut blurred, mut exact, mut total) = (0.0_f64, 0.0_f64, 0.0_f64);
            for i in 0..=2 * radius {
                let texel = ((i * 73) % 256) as f64;
                let k = i.abs_diff(radius);
                blurred += texel * weights[k / 4][k % 4] as f64;
                exact += texel * list[k] as f64;
                total += list[k] as f64;
            }
            let bound = 255.0 * (2 * radius + 2) as f64 / 16777216.0;
            assert!((blurred - exact / total).abs() <= bound);
        }
    }
}
