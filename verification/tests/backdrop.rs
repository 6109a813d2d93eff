use zui::backdrop::{
    ensure_backdrop_scratch, kernel_exponents, process_backdrop_blur, BackdropScratch, BlurPlan,
};
use zui::float::Float32;
use zui::geometry::{rectangle, Corners, ScaledPixels};
use zui::scene::{BackdropBlur, ContentMask};

fn f(x: f32) -> Float32 {
    Float32::from_bits(x.to_bits())
}

fn value(x: Float32) -> f32 {
    f32::from_bits(x.to_bits())
}

fn blur(x: f32, y: f32, width: f32, height: f32, radius: f32) -> BackdropBlur {
    let zero = ScaledPixels(f(0.0));
    BackdropBlur {
        order: 0,
        bounds: rectangle(f(x), f(y), f(width), f(height)),
        content_mask: ContentMask { bounds: rectangle(f(0.0), f(0.0), f(10000.0), f(10000.0)) },
        corner_radii: Corners {
            top_left: ScaledPixels(f(4.0)),
            top_right: zero,
            bottom_right: zero,
            bottom_left: zero,
        },
        blur_radius: ScaledPixels(f(radius)),
    }
}

fn plan(b: &BackdropBlur, current: Option<BackdropScratch>, w: u32, h: u32) -> Option<BlurPlan> {
    let samples: Vec<Float32> =
        kernel_exponents(b).iter().map(|x| f(value(*x).exp())).collect();
    process_backdrop_blur(b, current, w, h, &samples)
}

#[test]
fn scratch_is_rounded_up_and_reused() {
    let (scratch, created) = ensure_backdrop_scratch(None, 300, 10, 2, 1000, 200);
    assert!(created);
    assert_eq!(
        scratch,
        BackdropScratch {
            width: 512,
            height: 200,
            downsample: 2,
            blur_width: 256,
            blur_height: 100
        }
    );
    let again = |w, h, d, dw, dh| ensure_backdrop_scratch(Some(scratch), w, h, d, dw, dh);
    assert_eq!(again(512, 200, 2, 1000, 200), (scratch, false));
    assert_eq!(again(1, 1, 2, 512, 200), (scratch, false));
    assert!(again(513, 10, 2, 1000, 200).1);
    assert!(again(300, 10, 2, 511, 200).1);
    assert!(again(300, 10, 2, 1000, 199).1);
    assert!(again(300, 201, 2, 1000, 400).1);
    assert!(again(300, 10, 3, 1000, 200).1);
    let (odd, _) = ensure_backdrop_scratch(None, 1, 1, 4, 255, 1);
    assert_eq!((odd.width, odd.height, odd.blur_width, odd.blur_height), (255, 1, 64, 1));
}

#[test]
fn copies_cover_the_padded_region() {
    // Deviation 8 gives a padding of 26 pixels.
    let p = plan(&blur(100.0, 200.0, 300.0, 40.0, 8.0), None, 1920, 1080).unwrap();
    assert!(p.create);
    assert_eq!((p.scratch.width, p.scratch.height), (512, 256));
    assert_eq!(p.scratch.downsample, 1);
    assert_eq!((p.copy_x, p.copy_y), (74, 174));
    // At the edge of the drawable the copy is moved inside.
    let p = plan(&blur(1800.0, 1000.0, 300.0, 300.0, 16.0), None, 1920, 1080).unwrap();
    assert_eq!((p.scratch.width, p.scratch.height), (256, 256));
    assert_eq!((p.copy_x, p.copy_y), (1920 - 256, 1080 - 256));
    assert_eq!(p.scratch.downsample, 2);
    // A small drawable is copied whole.
    let p = plan(&blur(10.0, 10.0, 20.0, 20.0, 100.0), None, 64, 48).unwrap();
    assert_eq!((p.scratch.width, p.scratch.height), (64, 48));
    assert_eq!((p.copy_x, p.copy_y), (0, 0));
    assert_eq!(p.scratch.downsample, 4);
    assert_eq!((p.scratch.blur_width, p.scratch.blur_height), (16, 12));
}

#[test]
fn textures_at_hand_are_used() {
    let b = blur(100.0, 200.0, 300.0, 40.0, 8.0);
    let first = plan(&b, None, 1920, 1080).unwrap();
    let second = plan(&b, Some(first.scratch), 1920, 1080).unwrap();
    assert!(!second.create);
    assert_eq!(second.scratch, first.scratch);
    assert!(plan(&b, Some(first.scratch), 500, 1080).unwrap().create);
}

#[test]
fn clipped_blurs_are_skipped() {
    let mut left = blur(-500.0, 0.0, 100.0, 100.0, 8.0);
    // Clipped to nothing at the edge, what is next to it can still be seen.
    assert!(plan(&left, None, 640, 480).is_some());
    left.content_mask.bounds = left.bounds;
    assert!(plan(&left, None, 640, 480).is_none());
    assert!(plan(&blur(0.0, 2000.0, 100.0, 100.0, 8.0), None, 640, 480).is_none());
    assert!(plan(&blur(f32::NAN, 0.0, 100.0, 100.0, 8.0), None, 640, 480).is_some());
    let mut b = blur(0.0, 0.0, 100.0, 100.0, 8.0);
    b.content_mask.bounds = rectangle(f(5000.0), f(5000.0), f(1.0), f(1.0));
    assert!(plan(&b, None, 640, 480).is_none());
}

#[test]
fn passes_are_told_direction_and_size() {
    let b = blur(100.0, 200.0, 300.0, 40.0, 16.0);
    let p = plan(&b, None, 1920, 1080).unwrap();
    let bits = |x: f32| x.to_bits();
    assert_eq!(p.scratch.downsample, 2);
    assert_eq!(
        p.horizontal_words[..8],
        [
            bits(1.0),
            0,
            bits(8.0),
            bits(2.0),
            bits(1.0 / p.scratch.width as f32),
            bits(1.0 / p.scratch.height as f32),
            0,
            0
        ]
    );
    assert_eq!(
        p.vertical_words[..8],
        [
            0,
            bits(1.0),
            bits(8.0),
            bits(1.0),
            bits(1.0 / p.scratch.blur_width as f32),
            bits(1.0 / p.scratch.blur_height as f32),
            0,
            0
        ]
    );
    assert_eq!(p.horizontal_words[8..], p.vertical_words[8..]);
    assert_eq!(p.horizontal_words.len(), 140);
    let total: f32 = p.horizontal_words[9..].iter().map(|w| 2.0 * f32::from_bits(*w)).sum();
    let center = f32::from_bits(p.horizontal_words[8]);
    assert!((center + total - 1.0).abs() < 0.00001);
    assert_eq!(
        p.composite_words,
        vec![
            bits(100.0),
            bits(200.0),
            bits(300.0),
            bits(40.0),
            bits(4.0),
            0,
            0,
            0,
            0,
            0,
            bits(10000.0),
            bits(10000.0),
            bits(p.copy_x as f32),
            bits(p.copy_y as f32),
            bits(p.scratch.width as f32),
            bits(p.scratch.height as f32)
        ]
    );
}

#[test]
fn exponents_end_at_the_radius() {
    let exponents = kernel_exponents(&blur(0.0, 0.0, 10.0, 10.0, 8.0));
    assert_eq!(exponents.len(), 25);
    assert_eq!(value(exponents[0]), 0.0);
    assert_eq!(value(exponents[3]), -9.0 / 128.0);
    // At least one pixel of deviation, whatever the radius.
    assert_eq!(kernel_exponents(&blur(0.0, 0.0, 10.0, 10.0, -3.0)).len(), 4);
    // Four times 43 texels of deviation are left to the shader.
    assert_eq!(kernel_exponents(&blur(0.0, 0.0, 10.0, 10.0, 172.0)).len(), 0);
}

#[test]
fn regions_follow_the_visible_part() {
    let p = plan(&blur(100.0, 200.0, 300.0, 40.0, 8.0), None, 1920, 1080).unwrap();
    // The visible part starts 26 texels into the copy.
    assert_eq!(p.vertical_region, [25, 25, 302, 42]);
    assert_eq!(p.horizontal_region, [24, 0, 304, 92]);
}

#[test]
fn copies_hold_what_the_kernel_reaches() {
    for radius in [0.0_f32, 1.0, 2.7, 9.9, 33.3] {
        for x in [0.25_f32, 63.5, 400.0] {
            let p = plan(&blur(x, x, 120.5, 80.25, radius), None, 1024, 1024).unwrap();
            let reach = (radius.max(1.0) * 3.0).ceil();
            assert!(p.copy_x as f32 <= (x - reach).max(0.0));
            assert!(p.copy_y as f32 <= (x - reach).max(0.0));
            assert!((p.copy_x + p.scratch.width) as f32 >= (x + 120.5 + reach).min(1024.0));
            assert!((p.copy_y + p.scratch.height) as f32 >= (x + 80.25 + reach).min(1024.0));
        }
    }
}
