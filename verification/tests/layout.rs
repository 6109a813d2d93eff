use std::mem::{align_of, size_of};
use zui::float::Float32;
use zui::geometry::{
    rectangle, Bounds, Corners, DevicePixels, Edges, Point, ScaledPixels, Size,
};
use zui::layout::{
    edge_fade_layout, instance_bytes, polychrome_sprite_layout, quad_layout, Field, Words,
};
use zui::scene::{
    quad, AtlasTextureId, AtlasTextureKind, AtlasTile, Background, BackgroundTag, BorderStyle,
    ColorSpace, ContentMask, EdgeFadeParams, Hsla, LinearColorStop, PathVertex, PolychromeSprite,
    Quad,
};

fn n(bits: u32) -> Float32 {
    Float32::from_bits(bits)
}

fn px(bits: u32) -> ScaledPixels {
    ScaledPixels(n(bits))
}

fn bounds(first: u32) -> Bounds<ScaledPixels> {
    rectangle(n(first), n(first + 1), n(first + 2), n(first + 3))
}

fn color(first: u32) -> Hsla {
    Hsla { h: n(first), s: n(first + 1), l: n(first + 2), a: n(first + 3) }
}

fn corners(first: u32) -> Corners<ScaledPixels> {
    Corners {
        top_left: px(first),
        top_right: px(first + 1),
        bottom_right: px(first + 2),
        bottom_left: px(first + 3),
    }
}

fn fade(first: u32) -> EdgeFadeParams {
    EdgeFadeParams {
        top_y: n(first),
        bottom_y: n(first + 1),
        band_top: n(first + 2),
        band_bottom: n(first + 3),
        left_x: n(first + 4),
        right_x: n(first + 5),
        band_left: n(first + 6),
        band_right: n(first + 7),
    }
}

fn background() -> Background {
    Background {
        tag: BackgroundTag::Checkerboard,
        color_space: ColorSpace::Oklab,
        solid: color(12),
        gradient_angle_or_pattern_height: n(16),
        first_stop: LinearColorStop { color: color(17), percentage: n(21) },
        second_stop: LinearColorStop { color: color(22), percentage: n(26) },
    }
}

/// A quad whose words count up, but for its tags and padding.
fn counting_quad() -> Quad {
    Quad {
        order: 77,
        border_style: BorderStyle::Dashed,
        bounds: bounds(2),
        content_mask: ContentMask { bounds: bounds(6) },
        background: background(),
        border_color: color(28),
        corner_radii: corners(32),
        border_widths: Edges { top: px(36), right: px(37), bottom: px(38), left: px(39) },
        fade: fade(40),
    }
}

fn tile() -> AtlasTile {
    AtlasTile {
        texture_id: AtlasTextureId { index: 24, kind: AtlasTextureKind::Subpixel },
        tile_id: 26,
        padding: 27,
        bounds: Bounds {
            origin: Point { x: DevicePixels(28), y: DevicePixels(-1) },
            size: Size { width: DevicePixels(30), height: DevicePixels(31) },
        },
    }
}

fn sprite() -> PolychromeSprite {
    PolychromeSprite {
        order: 0,
        pad: 1,
        grayscale: true,
        opacity: n(3),
        bounds: bounds(4),
        content_mask: ContentMask { bounds: bounds(8) },
        corner_radii: corners(12),
        fade: fade(16),
        tile: tile(),
    }
}

fn quad_size() -> usize {
    let mut w = Words::new();
    w.push_quad(&quad());
    4 * w.words.len()
}

fn offset_in(fields: &[Field], declaration: &str) -> u32 {
    fields.iter().find(|field| field.declaration == declaration).unwrap().offset
}

/// The body of a declaration with these members.
fn declared(fields: &[Field]) -> String {
    let mut body = String::new();
    for field in fields {
        body.push_str("    ");
        body.push_str(field.declaration);
        body.push('\n');
    }
    body
}

fn assert_fields_in_order(body: &str, fields: &[&str]) {
    let mut remainder = body;
    for field in fields {
        remainder = remainder
            .split_once(field)
            .unwrap_or_else(|| {
                panic!("missing or out-of-order HLSL field `{field}` in:\n{body}")
            })
            .1;
    }
}

#[test]
fn edge_fade_layout_is_eight_packed_floats() {
    assert_eq!(align_of::<EdgeFadeParams>(), align_of::<f32>());
    assert_eq!(size_of::<EdgeFadeParams>(), 32);
    assert_fields_in_order(
        &declared(&edge_fade_layout()),
        &[
            "float top_y;",
            "float bottom_y;",
            "float band_top;",
            "float band_bottom;",
            "float left_x;",
            "float right_x;",
            "float band_left;",
            "float band_right;",
        ],
    );
}

#[test]
fn quad_hlsl_layout_includes_trailing_edge_fade() {
    assert_eq!(offset_in(&quad_layout(), "EdgeFadeParams fade;"), 160);
    assert_eq!(quad_size(), 192);
    assert_fields_in_order(
        &declared(&quad_layout()),
        &[
            "uint order;",
            "uint border_style;",
            "Bounds bounds;",
            "Bounds content_mask;",
            "Background background;",
            "Hsla border_color;",
            "Corners corner_radii;",
            "Edges border_widths;",
            "EdgeFadeParams fade;",
        ],
    );
}

#[test]
fn polychrome_hlsl_layout_keeps_fade_before_atlas_tile() {
    let fields = polychrome_sprite_layout();
    assert_eq!(offset_in(&fields, "EdgeFadeParams fade;"), 64);
    assert_eq!(offset_in(&fields, "AtlasTile tile;"), 96);
    let mut tile_words = Words::new();
    tile_words.push_tile(&tile());
    assert_eq!(4 * tile_words.words.len(), 32);
    let mut sprite_words = Words::new();
    sprite_words.push_polychrome_sprite(&sprite());
    assert_eq!(4 * sprite_words.words.len(), 128);
    assert_fields_in_order(
        &declared(&fields),
        &[
            "uint order;",
            "uint pad;",
            "uint grayscale;",
            "float opacity;",
            "Bounds bounds;",
            "Bounds content_mask;",
            "Corners corner_radii;",
            "EdgeFadeParams fade;",
            "AtlasTile tile;",
        ],
    );
}

#[test]
fn quad_words_are_in_declaration_order() {
    let mut w = Words::new();
    w.push_quad(&counting_quad());
    let mut expected: Vec<u32> = (0..48).collect();
    expected[0] = 77;
    expected[1] = 1;
    expected[10] = 3;
    expected[11] = 1;
    expected[27] = 0;
    assert_eq!(w.words, expected);
}

#[test]
fn sprite_words_are_in_declaration_order() {
    let mut w = Words::new();
    w.push_polychrome_sprite(&sprite());
    let mut expected: Vec<u32> = (0..32).collect();
    expected[2] = 1;
    expected[25] = 2;
    expected[29] = u32::MAX;
    assert_eq!(w.words, expected);
}

#[test]
fn vertex_words_end_with_color_and_clip() {
    let vertex = PathVertex {
        xy_position: Point { x: px(0), y: px(1) },
        st_position: Point { x: n(2), y: n(3) },
    };
    let mut w = Words::new();
    w.push_vertex(&vertex, &background(), &bounds(50));
    assert_eq!(w.words.len(), 26);
    assert_eq!(w.words[..4], [0, 1, 2, 3]);
    assert_eq!(w.words[4..8], [3, 1, 12, 13]);
    assert_eq!(w.words[22..], [50, 51, 52, 53]);
}

#[test]
fn bytes_are_the_memory_of_the_words() {
    let words = vec![0x0102_0304, 0, 0xfffe_fdfc, 1];
    let mut expected = Vec::new();
    for word in &words {
        expected.extend_from_slice(&u32::to_ne_bytes(*word));
    }
    assert_eq!(instance_bytes(&words), expected);
    assert_eq!(instance_bytes(&Vec::new()), Vec::<u8>::new());
}
