use zui::float::Float32;
use zui::geometry::{rectangle, Bounds, ScaledPixels};
use zui::quads::{
    exterior_scissors, has_opaque_color, is_simple_solid_quad, is_unclipped_opaque_quad,
    simple_quad_kind, solid_quad_interior, SimpleQuadKind,
};
use zui::scene::{
    quad, Background, BackgroundTag, EdgeFadeParams, Hsla, LinearColorStop, Quad,
};

fn f(x: f32) -> Float32 {
    Float32::from_bits(x.to_bits())
}

fn px(x: f32) -> ScaledPixels {
    ScaledPixels(f(x))
}

fn rect(x: f32, y: f32, width: f32, height: f32) -> Bounds<ScaledPixels> {
    rectangle(f(x), f(y), f(width), f(height))
}

fn hsla(h: f32, s: f32, l: f32, a: f32) -> Hsla {
    Hsla { h: f(h), s: f(s), l: f(l), a: f(a) }
}

#[test]
fn simple_fill_selection_preserves_effects() {
    assert!(is_simple_solid_quad(&quad()));
    let mut q = quad();
    q.corner_radii.top_left = px(0.01);
    assert!(!is_simple_solid_quad(&q));
    q = quad();
    q.border_widths.bottom = px(0.01);
    assert!(!is_simple_solid_quad(&q));
    for edge in 0..4 {
        q = quad();
        match edge {
            0 => q.fade.band_top = f(0.01),
            1 => q.fade.band_bottom = f(0.01),
            2 => q.fade.band_left = f(0.01),
            _ => q.fade.band_right = f(0.01),
        }
        assert!(!is_simple_solid_quad(&q));
    }
    q = quad();
    q.background = Background {
        tag: BackgroundTag::LinearGradient,
        gradient_angle_or_pattern_height: f(90.0),
        first_stop: LinearColorStop { color: hsla(0.0, 1.0, 0.5, 1.0), percentage: f(0.0) },
        second_stop: LinearColorStop { color: hsla(0.5, 1.0, 0.5, 0.0), percentage: f(1.0) },
        ..q.background
    };
    assert!(!is_simple_solid_quad(&q));
}

#[test]
fn interior_regions_are_bounded_and_disjoint() {
    for viewport in [[256, 256], [1279, 799], [1920, 1080]] {
        let mut q = quad();
        q.bounds = rect(
            -2.25,
            -3.75,
            viewport[0] as f32 + 5.5,
            viewport[1] as f32 + 7.25,
        );
        q.content_mask.bounds = rect(0.0, 0.0, viewport[0] as f32, viewport[1] as f32);
        q.corner_radii.top_left = px(8.5);
        let interior = solid_quad_interior(&q, viewport).unwrap();
        let mut regions = exterior_scissors(interior, viewport).to_vec();
        regions.push(interior);
        assert_eq!(
            regions
                .iter()
                .map(|r| u64::from(r[2]) * u64::from(r[3]))
                .sum::<u64>(),
            u64::from(viewport[0]) * u64::from(viewport[1])
        );
        for (i, &[x, y, w, h]) in regions.iter().enumerate() {
            assert!(x + w <= viewport[0] && y + h <= viewport[1]);
            for &[x2, y2, w2, h2] in &regions[i + 1..] {
                assert!(x + w <= x2 || x2 + w2 <= x || y + h <= y2 || y2 + h2 <= y);
            }
        }
        q.bounds.origin.x = px(f32::INFINITY);
        assert!(solid_quad_interior(&q, viewport).is_none());
        q.bounds.origin.x = px(-16_777_216.0);
        assert!(solid_quad_interior(&q, viewport).is_none());
    }
}

#[test]
fn opaque_pipeline_requires_complete_coverage() {
    let mut q = quad();
    assert!(!is_unclipped_opaque_quad(&q));
    q.background = Background::from_color(hsla(0.2, 0.7, 0.3, 1.0));
    assert!(is_unclipped_opaque_quad(&q));
    q.content_mask.bounds.origin.x = px(0.5);
    assert!(!is_unclipped_opaque_quad(&q));
    q.content_mask.bounds.origin.x = px(0.0);
    q.fade.band_top = f(0.1);
    assert!(!is_unclipped_opaque_quad(&q));
}

#[test]
fn interior_has_exact_position() {
    let mut q = quad();
    q.corner_radii.top_left = px(8.5);
    // Nine and a half pixels from every edge, rounded inwards.
    assert_eq!(solid_quad_interior(&q, [256, 256]), Some([10, 10, 236, 236]));
    assert_eq!(solid_quad_interior(&q, [200, 300]), Some([10, 10, 190, 236]));
    q.content_mask.bounds = rect(20.25, 0.0, 200.0, 101.0);
    assert_eq!(solid_quad_interior(&q, [256, 256]), Some([21, 10, 199, 91]));
    q.fade = EdgeFadeParams {
        top_y: f(0.0),
        bottom_y: f(250.0),
        left_x: f(0.0),
        right_x: f(250.0),
        band_top: f(0.0),
        band_bottom: f(0.0),
        band_left: f(25.25),
        band_right: f(40.0),
    };
    assert_eq!(solid_quad_interior(&q, [256, 256]), Some([27, 10, 182, 91]));
    // Fewer than 16384 pixels.
    q.content_mask.bounds = rect(20.25, 0.0, 200.0, 90.0);
    assert_eq!(solid_quad_interior(&q, [256, 256]), None);
}

#[test]
fn interior_size_threshold_is_inclusive() {
    let mut q = quad();
    q.border_widths.left = px(1.0);
    q.content_mask.bounds = rect(10.0, 10.0, 128.0, 128.0);
    assert_eq!(solid_quad_interior(&q, [256, 256]), Some([10, 10, 128, 128]));
    q.content_mask.bounds = rect(10.0, 10.0, 128.0, 127.0);
    assert_eq!(solid_quad_interior(&q, [256, 256]), None);
    // The simple quad needs no interior.
    assert_eq!(solid_quad_interior(&quad(), [256, 256]), None);
}

#[test]
fn interior_rejects_what_is_not_finite() {
    let mut q = quad();
    q.corner_radii.top_left = px(f32::INFINITY);
    assert_eq!(solid_quad_interior(&q, [256, 256]), None);
    q.corner_radii.top_left = px(f32::NAN);
    assert_eq!(solid_quad_interior(&q, [256, 256]), None);
    q.corner_radii.top_left = px(2.0);
    assert!(solid_quad_interior(&q, [256, 256]).is_some());
    q.content_mask.bounds.size.width = px(f32::NAN);
    assert_eq!(solid_quad_interior(&q, [256, 256]), None);
    q = quad();
    q.corner_radii.top_left = px(2.0);
    q.fade.top_y = px(1_048_577.0).0;
    assert_eq!(solid_quad_interior(&q, [256, 256]), None);
    q.fade.top_y = px(-1_048_576.0).0;
    assert!(solid_quad_interior(&q, [256, 256]).is_some());
}

#[test]
fn exterior_strips_are_exact() {
    assert_eq!(
        exterior_scissors([10, 20, 30, 40], [100, 90]),
        [[0, 0, 10, 90], [40, 0, 60, 90], [10, 0, 30, 20], [10, 60, 30, 30]]
    );
}

#[test]
fn kinds_follow_from_the_effects() {
    let mut q = quad();
    assert_eq!(simple_quad_kind(&q), SimpleQuadKind::Solid);
    assert!(!has_opaque_color(&q));
    q.background = Background::from_color(hsla(0.2, 0.7, 0.3, 1.0));
    assert!(has_opaque_color(&q));
    assert_eq!(simple_quad_kind(&q), SimpleQuadKind::Opaque);
    q.bounds.size.width = px(0.0);
    assert_eq!(simple_quad_kind(&q), SimpleQuadKind::Solid);
    q.corner_radii.bottom_left = px(-0.0);
    assert_eq!(simple_quad_kind(&q), SimpleQuadKind::Solid);
    q.border_widths.top = px(f32::NAN);
    assert_eq!(simple_quad_kind(&q), SimpleQuadKind::General);
}

/// Overlapping fills with subpixel geometry and clipping on every edge are all
/// simple; large ones with corners, borders and fades mostly have interiors.
#[test]
fn generated_quads_are_classified() {
    for i in 0..192 {
        let mut q = quad();
        q.bounds = rect(
            (i * 37 % 280) as f32 - 20.25,
            (i * 71 % 280) as f32 - 20.75,
            (i % 47 + 1) as f32 + 0.5,
            (i % 61 + 1) as f32 + 0.25,
        );
        q.content_mask.bounds = rect(
            (i % 17) as f32 + 0.125,
            (i % 23) as f32 + 0.625,
            if i % 11 == 0 { 0.0 } else { 217.5 },
            224.25,
        );
        q.background = Background::from_color(hsla(
            (i % 31) as f32 / 31.0,
            (i % 7) as f32 / 6.0,
            (i % 9) as f32 / 8.0,
            (i % 5) as f32 / 4.0,
        ));
        assert!(is_simple_solid_quad(&q));
    }
    let mut quads: Vec<Quad> = vec![];
    for i in 0..64 {
        let mut q = quad();
        q.bounds = rect(
            -20.25 + (i % 3) as f32 * 17.0,
            -19.75 + (i % 5) as f32 * 11.0,
            257.5,
            261.25,
        );
        q.corner_radii.top_left = px((i % 7) as f32 + 0.125);
        q.corner_radii.top_right = px((i % 11) as f32 + 0.75);
        q.corner_radii.bottom_left = px((i % 19) as f32 + 0.375);
        q.corner_radii.bottom_right = px((i % 23) as f32 + 0.5);
        q.border_widths.top = px((i % 9) as f32);
        q.border_widths.right = px((i % 3) as f32 + 0.25);
        q.border_widths.bottom = px((i % 5) as f32 + 0.75);
        q.border_widths.left = px((i % 7) as f32 + 0.5);
        q.content_mask.bounds = rect(3.25, 4.75, 249.25, 242.5);
        if i % 3 == 0 {
            q.fade = EdgeFadeParams {
                top_y: f(2.5),
                bottom_y: f(253.25),
                left_x: f(0.75),
                right_x: f(254.5),
                band_top: f(25.25),
                band_bottom: f(30.5),
                band_left: f(13.5),
                band_right: f(20.75),
            };
        }
        quads.push(q);
    }
    assert!(
        quads
            .iter()
            .filter(|q| solid_quad_interior(q, [256, 256]).is_some())
            .count()
            > 20
    );
}
