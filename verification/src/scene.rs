//! What a frame is made of: primitives in draw order, and the 32-bit words in
//! which the GPU reads each of them.
use crate::float::Float32;
use crate::geometry::{rectangle, Bounds, Corners, DevicePixels, Edges, Point, ScaledPixels, Size};
use std::ops::Range;
use vstd::prelude::*;

verus! {

/// Position of a primitive in the painting order of its frame.
pub type DrawOrder = u32;

/// A color by hue, saturation, lightness and opacity.
#[derive(Clone, Copy, Debug, PartialEq, Eq, Structural)]
pub struct Hsla {
    pub h: Float32,
    pub s: Float32,
    pub l: Float32,
    pub a: Float32,
}

#[derive(Clone, Copy, Debug, PartialEq, Eq, Structural)]
pub enum BackgroundTag {
    Solid,
    LinearGradient,
    PatternSlash,
    Checkerboard,
}

#[derive(Clone, Copy, Debug, PartialEq, Eq, Structural)]
pub enum ColorSpace {
    Srgb,
    Oklab,
}

/// One end of a gradient.
#[derive(Clone, Copy, Debug, PartialEq, Eq, Structural)]
pub struct LinearColorStop {
    pub color: Hsla,
    pub percentage: Float32,
}

/// What fills a shape.
#[derive(Clone, Copy, Debug, PartialEq, Eq, Structural)]
pub struct Background {
    pub tag: BackgroundTag,
    pub color_space: ColorSpace,
    pub solid: Hsla,
    pub gradient_angle_or_pattern_height: Float32,
    pub first_stop: LinearColorStop,
    pub second_stop: LinearColorStop,
}

#[derive(Clone, Copy, Debug, PartialEq, Eq, Structural)]
pub enum BorderStyle {
    Solid,
    Dashed,
}

/// The rectangle that a primitive is clipped to.
#[derive(Clone, Copy, Debug, PartialEq, Eq, Structural)]
pub struct ContentMask {
    pub bounds: Bounds<ScaledPixels>,
}

/// Fade-out towards the edges of a region: positions of the edges, and the
/// width of the band along each. A band that is not positive does nothing.
#[derive(Clone, Copy, Debug, PartialEq, Eq, Structural)]
pub struct EdgeFadeParams {
    pub top_y: Float32,
    pub bottom_y: Float32,
    pub band_top: Float32,
    pub band_bottom: Float32,
    pub left_x: Float32,
    pub right_x: Float32,
    pub band_left: Float32,
    pub band_right: Float32,
}

/// A rectangle with a background, rounded corners and borders.
#[derive(Clone, Copy, Debug, PartialEq, Eq, Structural)]
pub struct Quad {
    pub order: DrawOrder,
    pub border_style: BorderStyle,
    pub bounds: Bounds<ScaledPixels>,
    pub content_mask: ContentMask,
    pub background: Background,
    pub border_color: Hsla,
    pub corner_radii: Corners<ScaledPixels>,
    pub border_widths: Edges<ScaledPixels>,
    pub fade: EdgeFadeParams,
}

/// A texture of the sprite atlas.
#[derive(Clone, Copy, Debug, PartialEq, Eq, Structural)]
pub struct AtlasTextureId {
    pub index: u32,
    pub kind: AtlasTextureKind,
}

#[derive(Clone, Copy, Debug, PartialEq, Eq, Structural)]
pub enum AtlasTextureKind {
    Monochrome,
    Polychrome,
    Subpixel,
}

/// A rectangle of an atlas texture.
#[derive(Clone, Copy, Debug, PartialEq, Eq, Structural)]
pub struct AtlasTile {
    pub texture_id: AtlasTextureId,
    pub tile_id: u32,
    pub padding: u32,
    pub bounds: Bounds<DevicePixels>,
}

/// A colored picture from the atlas.
#[derive(Clone, Copy, Debug, PartialEq, Eq, Structural)]
pub struct PolychromeSprite {
    pub order: DrawOrder,
    pub pad: u32,
    pub grayscale: bool,
    pub opacity: Float32,
    pub bounds: Bounds<ScaledPixels>,
    pub content_mask: ContentMask,
    pub corner_radii: Corners<ScaledPixels>,
    pub fade: EdgeFadeParams,
    pub tile: AtlasTile,
}

/// A primitive of which only the draw order matters here; the rest is the
/// words that the GPU reads.
#[derive(Debug)]
pub struct Primitive {
    pub order: DrawOrder,
    pub words: Vec<u32>,
}

#[derive(Clone, Copy, Debug, PartialEq, Eq, Structural)]
pub struct PathVertex {
    pub xy_position: Point<ScaledPixels>,
    pub st_position: Point<Float32>,
}

/// A filled outline, already cut into triangles.
#[derive(Debug)]
pub struct Path {
    pub order: DrawOrder,
    pub bounds: Bounds<ScaledPixels>,
    pub content_mask: ContentMask,
    pub color: Background,
    pub vertices: Vec<PathVertex>,
}

/// A region whose backdrop is blurred before anything above it is drawn.
#[derive(Clone, Copy, Debug, PartialEq, Eq, Structural)]
pub struct BackdropBlur {
    pub order: DrawOrder,
    pub bounds: Bounds<ScaledPixels>,
    pub content_mask: ContentMask,
    pub corner_radii: Corners<ScaledPixels>,
    pub blur_radius: ScaledPixels,
}

/// The primitives of one frame, each list in draw order.
#[derive(Debug)]
pub struct Scene {
    pub backdrop_blurs: Vec<BackdropBlur>,
    pub shadows: Vec<Primitive>,
    pub quads: Vec<Quad>,
    pub paths: Vec<Path>,
    pub underlines: Vec<Primitive>,
    pub monochrome_sprites: Vec<Primitive>,
    pub subpixel_sprites: Vec<Primitive>,
    pub polychrome_sprites: Vec<PolychromeSprite>,
    pub surfaces: Vec<Primitive>,
}

/// Neighbors in draw order that one draw call can cover: a range of positions
/// in one of the lists.
#[derive(Debug)]
pub enum PrimitiveBatch {
    Shadows(Range<usize>),
    Quads(Range<usize>),
    Paths(Range<usize>),
    Underlines(Range<usize>),
    MonochromeSprites { texture_id: AtlasTextureId, range: Range<usize> },
    SubpixelSprites { texture_id: AtlasTextureId, range: Range<usize> },
    PolychromeSprites { texture_id: AtlasTextureId, range: Range<usize> },
    Surfaces(Range<usize>),
}

impl Background {
    /// A background of a single color.
    pub fn from_color(color: Hsla) -> (r: Background)
        ensures
            r.tag is Solid,
            r.color_space is Srgb,
            r.solid == color,
            r.gradient_angle_or_pattern_height.bits == 0,
            r.first_stop == LinearColorStop::none(),
            r.second_stop == LinearColorStop::none(),
    {
        let z = Float32::zero();
        let stop = LinearColorStop { color: Hsla { h: z, s: z, l: z, a: z }, percentage: z };
        Background {
            tag: BackgroundTag::Solid,
            color_space: ColorSpace::Srgb,
            solid: color,
            gradient_angle_or_pattern_height: z,
            first_stop: stop,
            second_stop: stop,
        }
    }

    /// The color, if there is a single one.
    pub fn as_solid(&self) -> (r: Option<Hsla>)
        ensures
            r == if self.tag is Solid {
                Some(self.solid)
            } else {
                None
            },
    {
        if self.tag == BackgroundTag::Solid {
            Some(self.solid)
        } else {
            None
        }
    }
}

impl Path {
    /// What can be seen of the path.
    pub open spec fn visible_bounds(self) -> Bounds<ScaledPixels> {
        self.bounds.common_part(self.content_mask.bounds)
    }

    /// What can be seen of the path.
    pub fn clipped_bounds(&self) -> (r: Bounds<ScaledPixels>)
        ensures
            r == self.visible_bounds(),
    {
        self.bounds.intersect(&self.content_mask.bounds)
    }
}

impl Hsla {
    /// Transparent black.
    pub open spec fn none() -> Hsla {
        let z = Float32 { bits: 0 };
        Hsla { h: z, s: z, l: z, a: z }
    }
}

impl LinearColorStop {
    pub open spec fn none() -> LinearColorStop {
        LinearColorStop { color: Hsla::none(), percentage: Float32 { bits: 0 } }
    }
}

impl EdgeFadeParams {
    /// No fade.
    pub open spec fn none() -> EdgeFadeParams {
        let z = Float32 { bits: 0 };
        EdgeFadeParams {
            top_y: z,
            bottom_y: z,
            band_top: z,
            band_bottom: z,
            left_x: z,
            right_x: z,
            band_left: z,
            band_right: z,
        }
    }
}

/// A quad to start from: 256 pixels square at the origin, clipped to itself,
/// in a color of opacity 0.7, without corners, borders or fade.
pub fn quad() -> (r: Quad)
    ensures
        r.order == 0,
        r.border_style is Solid,
        ({
            let side = ScaledPixels(Float32 { bits: 0x4380_0000 });
            let zero = ScaledPixels(Float32 { bits: 0 });
            let square = Bounds {
                origin: Point { x: zero, y: zero },
                size: Size { width: side, height: side },
            };
            &&& r.bounds == square
            &&& r.content_mask.bounds == square
            &&& r.corner_radii == (Corners {
                top_left: zero,
                top_right: zero,
                bottom_right: zero,
                bottom_left: zero,
            })
            &&& r.border_widths == (Edges { top: zero, right: zero, bottom: zero, left: zero })
        }),
        r.background.tag is Solid,
        r.background.color_space is Srgb,
        r.background.solid == (Hsla {
            h: Float32 { bits: 0x3e05_1eb8 },
            s: Float32 { bits: 0x3f19_999a },
            l: Float32 { bits: 0x3ecc_cccd },
            a: Float32 { bits: 0x3f33_3333 },
        }),
        r.background.gradient_angle_or_pattern_height.bits == 0,
        r.background.first_stop == LinearColorStop::none(),
        r.background.second_stop == LinearColorStop::none(),
        r.border_color == Hsla::none(),
        r.fade == EdgeFadeParams::none(),
{
    let z = Float32::zero();
    let side = Float32::from_bits(0x4380_0000);
    let p = ScaledPixels(z);
    Quad {
        order: 0,
        border_style: BorderStyle::Solid,
        bounds: rectangle(z, z, side, side),
        content_mask: ContentMask { bounds: rectangle(z, z, side, side) },
        background: Background::from_color(
            Hsla {
                h: Float32::from_bits(0x3e05_1eb8),
                s: Float32::from_bits(0x3f19_999a),
                l: Float32::from_bits(0x3ecc_cccd),
                a: Float32::from_bits(0x3f33_3333),
            },
        ),
        border_color: Hsla { h: z, s: z, l: z, a: z },
        corner_radii: Corners { top_left: p, top_right: p, bottom_right: p, bottom_left: p },
        border_widths: Edges { top: p, right: p, bottom: p, left: p },
        fade: EdgeFadeParams {
            top_y: z,
            bottom_y: z,
            band_top: z,
            band_bottom: z,
            left_x: z,
            right_x: z,
            band_left: z,
            band_right: z,
        },
    }
}

} // verus!
