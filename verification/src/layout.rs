//! How values are laid out for the GPU: as 32-bit words, and those as bytes.
use crate::float::Float32;
use crate::geometry::{Bounds, Corners, DevicePixels, Edges, ScaledPixels};
use crate::scene::{
    AtlasTextureKind, AtlasTile, Background, BackgroundTag, BorderStyle, ColorSpace,
    EdgeFadeParams, Hsla, LinearColorStop, PathVertex, PolychromeSprite, Quad,
};
use vstd::prelude::*;

verus! {

/// Size of a word in bytes.
pub const WORD_BYTES: u64 = 4;

impl Bounds<ScaledPixels> {
    pub open spec fn words(self) -> Seq<u32> {
        seq![
            self.origin.x.0.bits,
            self.origin.y.0.bits,
            self.size.width.0.bits,
            self.size.height.0.bits,
        ]
    }
}

impl Bounds<DevicePixels> {
    pub open spec fn device_words(self) -> Seq<u32> {
        seq![
            self.origin.x.0 as u32,
            self.origin.y.0 as u32,
            self.size.width.0 as u32,
            self.size.height.0 as u32,
        ]
    }
}

impl Hsla {
    pub open spec fn words(self) -> Seq<u32> {
        seq![self.h.bits, self.s.bits, self.l.bits, self.a.bits]
    }
}

impl LinearColorStop {
    pub open spec fn words(self) -> Seq<u32> {
        self.color.words() + seq![self.percentage.bits]
    }
}

impl BackgroundTag {
    pub open spec fn word(self) -> u32 {
        match self {
            BackgroundTag::Solid => 0,
            BackgroundTag::LinearGradient => 1,
            BackgroundTag::PatternSlash => 2,
            BackgroundTag::Checkerboard => 3,
        }
    }
}

impl ColorSpace {
    pub open spec fn word(self) -> u32 {
        match self {
            ColorSpace::Srgb => 0,
            ColorSpace::Oklab => 1,
        }
    }
}

impl BorderStyle {
    pub open spec fn word(self) -> u32 {
        match self {
            BorderStyle::Solid => 0,
            BorderStyle::Dashed => 1,
        }
    }
}

impl AtlasTextureKind {
    pub open spec fn word(self) -> u32 {
        match self {
            AtlasTextureKind::Monochrome => 0,
            AtlasTextureKind::Polychrome => 1,
            AtlasTextureKind::Subpixel => 2,
        }
    }
}

impl Background {
    /// The last word is padding.
    pub open spec fn words(self) -> Seq<u32> {
        seq![self.tag.word(), self.color_space.word()] + self.solid.words() + seq![
            self.gradient_angle_or_pattern_height.bits,
        ] + self.first_stop.words() + self.second_stop.words() + seq![0u32]
    }
}

impl Corners<ScaledPixels> {
    pub open spec fn words(self) -> Seq<u32> {
        seq![
            self.top_left.0.bits,
            self.top_right.0.bits,
            self.bottom_right.0.bits,
            self.bottom_left.0.bits,
        ]
    }
}

impl Edges<ScaledPixels> {
    pub open spec fn words(self) -> Seq<u32> {
        seq![self.top.0.bits, self.right.0.bits, self.bottom.0.bits, self.left.0.bits]
    }
}

impl EdgeFadeParams {
    pub open spec fn words(self) -> Seq<u32> {
        seq![
            self.top_y.bits,
            self.bottom_y.bits,
            self.band_top.bits,
            self.band_bottom.bits,
            self.left_x.bits,
            self.right_x.bits,
            self.band_left.bits,
            self.band_right.bits,
        ]
    }
}

impl Quad {
    pub open spec fn words(self) -> Seq<u32> {
        seq![self.order, self.border_style.word()] + self.bounds.words()
            + self.content_mask.bounds.words() + self.background.words()
            + self.border_color.words() + self.corner_radii.words() + self.border_widths.words()
            + self.fade.words()
    }
}

impl AtlasTile {
    pub open spec fn words(self) -> Seq<u32> {
        seq![self.texture_id.index, self.texture_id.kind.word(), self.tile_id, self.padding]
            + self.bounds.device_words()
    }
}

impl PolychromeSprite {
    pub open spec fn words(self) -> Seq<u32> {
        seq![
            self.order,
            self.pad,
            if self.grayscale {
                1u32
            } else {
                0u32
            },
            self.opacity.bits,
        ] + self.bounds.words() + self.content_mask.bounds.words() + self.corner_radii.words()
            + self.fade.words() + self.tile.words()
    }
}

/// The words of a vertex of a path that is drawn with this color and clip.
pub open spec fn vertex_words(
    vertex: PathVertex,
    color: Background,
    bounds: Bounds<ScaledPixels>,
) -> Seq<u32> {
    seq![
        vertex.xy_position.x.0.bits,
        vertex.xy_position.y.0.bits,
        vertex.st_position.x.bits,
        vertex.st_position.y.bits,
    ] + color.words() + bounds.words()
}

/// A writer that appends the words of one value after another.
pub struct Words {
    pub words: Vec<u32>,
}

impl View for Words {
    type V = Seq<u32>;

    open spec fn view(&self) -> Seq<u32> {
        self.words@
    }
}

impl Words {
    pub fn new() -> (r: Words)
        ensures
            r@ == Seq::<u32>::empty(),
    {
        Words { words: Vec::new() }
    }

    pub fn push(&mut self, word: u32)
        ensures
            final(self)@ == old(self)@.push(word),
    {
        self.words.push(word);
    }

    pub fn push_float(&mut self, value: Float32)
        ensures
            final(self)@ == old(self)@.push(value.bits),
    {
        self.words.push(value.to_bits());
    }

    pub fn push_all(&mut self, words: &Vec<u32>)
        ensures
            final(self)@ == old(self)@ + words@,
    {
        let ghost before = self@;
        for i in 0..words.len()
            invariant
                self@ == before + words@.subrange(0, i as int),
        {
            self.words.push(words[i]);
            assert(words@.subrange(0, i + 1) == words@.subrange(0, i as int).push(
                words@[i as int],
            ));
        }
        assert(words@.subrange(0, words.len() as int) == words@);
    }

    fn push_four(&mut self, a: u32, b: u32, c: u32, d: u32)
        ensures
            final(self)@ == old(self)@ + seq![a, b, c, d],
    {
        self.words.push(a);
        self.words.push(b);
        self.words.push(c);
        self.words.push(d);
    }

    pub fn push_bounds(&mut self, bounds: &Bounds<ScaledPixels>)
        ensures
            final(self)@ == old(self)@ + bounds.words(),
    {
        self.push_four(
            bounds.origin.x.0.bits,
            bounds.origin.y.0.bits,
            bounds.size.width.0.bits,
            bounds.size.height.0.bits,
        );
    }

    pub fn push_corners(&mut self, corners: &Corners<ScaledPixels>)
        ensures
            final(self)@ == old(self)@ + corners.words(),
    {
        self.push_four(
            corners.top_left.0.bits,
            corners.top_right.0.bits,
            corners.bottom_right.0.bits,
            corners.bottom_left.0.bits,
        );
    }

    fn push_edges(&mut self, edges: &Edges<ScaledPixels>)
        ensures
            final(self)@ == old(self)@ + edges.words(),
    {
        self.push_four(
            edges.top.0.bits,
            edges.right.0.bits,
            edges.bottom.0.bits,
            edges.left.0.bits,
        );
    }

    fn push_color(&mut self, color: &Hsla)
        ensures
            final(self)@ == old(self)@ + color.words(),
    {
        self.push_four(color.h.bits, color.s.bits, color.l.bits, color.a.bits);
    }

    fn push_stop(&mut self, stop: &LinearColorStop)
        ensures
            final(self)@ == old(self)@ + stop.words(),
    {
        self.push_color(&stop.color);
        self.push_float(stop.percentage);
    }

    pub fn push_background(&mut self, background: &Background)
        ensures
            final(self)@ == old(self)@ + background.words(),
    {
        self.push(
            match background.tag {
                BackgroundTag::Solid => 0,
                BackgroundTag::LinearGradient => 1,
                BackgroundTag::PatternSlash => 2,
                BackgroundTag::Checkerboard => 3,
            },
        );
        self.push(
            match background.color_space {
                ColorSpace::Srgb => 0,
                ColorSpace::Oklab => 1,
            },
        );
        self.push_color(&background.solid);
        self.push_float(background.gradient_angle_or_pattern_height);
        self.push_stop(&background.first_stop);
        self.push_stop(&background.second_stop);
        self.push(0);
    }

    pub fn push_fade(&mut self, fade: &EdgeFadeParams)
        ensures
            final(self)@ == old(self)@ + fade.words(),
    {
        self.push_four(
            fade.top_y.bits,
            fade.bottom_y.bits,
            fade.band_top.bits,
            fade.band_bottom.bits,
        );
        self.push_four(
            fade.left_x.bits,
            fade.right_x.bits,
            fade.band_left.bits,
            fade.band_right.bits,
        );
    }

    pub fn push_quad(&mut self, quad: &Quad)
        ensures
            final(self)@ == old(self)@ + quad.words(),
    {
        self.push(quad.order);
        self.push(
            match quad.border_style {
                BorderStyle::Solid => 0,
                BorderStyle::Dashed => 1,
            },
        );
        self.push_bounds(&quad.bounds);
        self.push_bounds(&quad.content_mask.bounds);
        self.push_background(&quad.background);
        self.push_color(&quad.border_color);
        self.push_corners(&quad.corner_radii);
        self.push_edges(&quad.border_widths);
        self.push_fade(&quad.fade);
    }

    pub fn push_tile(&mut self, tile: &AtlasTile)
        ensures
            final(self)@ == old(self)@ + tile.words(),
    {
        self.push(tile.texture_id.index);
        self.push(
            match tile.texture_id.kind {
                AtlasTextureKind::Monochrome => 0,
                AtlasTextureKind::Polychrome => 1,
                AtlasTextureKind::Subpixel => 2,
            },
        );
        self.push(tile.tile_id);
        self.push(tile.padding);
        self.push_four(
            tile.bounds.origin.x.0 as u32,
            tile.bounds.origin.y.0 as u32,
            tile.bounds.size.width.0 as u32,
            tile.bounds.size.height.0 as u32,
        );
    }

    pub fn push_polychrome_sprite(&mut self, sprite: &PolychromeSprite)
        ensures
            final(self)@ == old(self)@ + sprite.words(),
    {
        self.push(sprite.order);
        self.push(sprite.pad);
        self.push(
            if sprite.grayscale {
                1
            } else {
                0
            },
        );
        self.push_float(sprite.opacity);
        self.push_bounds(&sprite.bounds);
        self.push_bounds(&sprite.content_mask.bounds);
        self.push_corners(&sprite.corner_radii);
        self.push_fade(&sprite.fade);
        self.push_tile(&sprite.tile);
    }

    pub fn push_vertex(
        &mut self,
        vertex: &PathVertex,
        color: &Background,
        bounds: &Bounds<ScaledPixels>,
    )
        ensures
            final(self)@ == old(self)@ + vertex_words(*vertex, *color, *bounds),
    {
        self.push_four(
            vertex.xy_position.x.0.bits,
            vertex.xy_position.y.0.bits,
            vertex.st_position.x.bits,
            vertex.st_position.y.bits,
        );
        self.push_background(color);
        self.push_bounds(bounds);
    }
}

/// The four bytes of a word, least significant first.
pub open spec fn little_end_first(word: u32) -> Seq<u8> {
    seq![
        (word % 256) as u8,
        ((word / 256) % 256) as u8,
        ((word / 65536) % 256) as u8,
        ((word / 16777216) % 256) as u8,
    ]
}

/// The bytes of a sequence of words, in either order of significance.
pub open spec fn bytes_of(words: Seq<u32>, little: bool) -> Seq<u8> {
    Seq::new(
        4 * words.len(),
        |i: int|
            {
                let bytes = little_end_first(words[i / 4]);
                if little {
                    bytes[i % 4]
                } else {
                    bytes[3 - i % 4]
                }
            },
    )
}

/// Calls `bytemuck::cast_slice` from words to bytes, and copies what it gives.
/// The call reinterprets the memory of the words, so it is assumed to give the
/// four bytes of each word in their order, in the order of significance of the
/// machine: one and the same for all words, but not known here.
#[verifier::external_body]
fn cast_words(words: &Vec<u32>) -> (r: Vec<u8>)
    ensures
        r@ == bytes_of(words@, true) || r@ == bytes_of(words@, false),
{
    bytemuck::cast_slice::<u32, u8>(words.as_slice()).to_vec()
}

/// The memory of a sequence of words, as it is copied into a buffer of the GPU.
pub fn instance_bytes(words: &Vec<u32>) -> (r: Vec<u8>)
    ensures
        r@ == bytes_of(words@, true) || r@ == bytes_of(words@, false),
{
    cast_words(words)
}

/// A member of a struct as shaders declare it, and where it starts in bytes.
pub struct Field {
    pub declaration: &'static str,
    pub offset: u32,
}

/// What a table of members says.
pub open spec fn members(fields: Seq<Field>) -> Seq<(Seq<char>, int)> {
    fields.map(|i: int, f: Field| (f.declaration@, f.offset as int))
}

/// The members of an edge fade in a shader, with their offsets.
pub open spec fn edge_fade_members() -> Seq<(Seq<char>, int)> {
    seq![
        ("float top_y;"@, 0int),
        ("float bottom_y;"@, 4int),
        ("float band_top;"@, 8int),
        ("float band_bottom;"@, 12int),
        ("float left_x;"@, 16int),
        ("float right_x;"@, 20int),
        ("float band_left;"@, 24int),
        ("float band_right;"@, 28int),
    ]
}

/// The members of an edge fade in a shader, with their offsets.
pub fn edge_fade_layout() -> (r: Vec<Field>)
    ensures
        members(r@) == edge_fade_members(),
{
    let mut r: Vec<Field> = Vec::new();
    r.push(Field { declaration: "float top_y;", offset: 0 });
    r.push(Field { declaration: "float bottom_y;", offset: 4 });
    r.push(Field { declaration: "float band_top;", offset: 8 });
    r.push(Field { declaration: "float band_bottom;", offset: 12 });
    r.push(Field { declaration: "float left_x;", offset: 16 });
    r.push(Field { declaration: "float right_x;", offset: 20 });
    r.push(Field { declaration: "float band_left;", offset: 24 });
    r.push(Field { declaration: "float band_right;", offset: 28 });
    assert(members(r@) =~= edge_fade_members());
    r
}

/// The members of a quad in a shader, with their offsets.
pub open spec fn quad_members() -> Seq<(Seq<char>, int)> {
    seq![
        ("uint order;"@, 0int),
        ("uint border_style;"@, 4int),
        ("Bounds bounds;"@, 8int),
        ("Bounds content_mask;"@, 24int),
        ("Background background;"@, 40int),
        ("Hsla border_color;"@, 112int),
        ("Corners corner_radii;"@, 128int),
        ("Edges border_widths;"@, 144int),
        ("EdgeFadeParams fade;"@, 160int),
    ]
}

/// The members of a quad in a shader, with their offsets.
pub fn quad_layout() -> (r: Vec<Field>)
    ensures
        members(r@) == quad_members(),
{
    let mut r: Vec<Field> = Vec::new();
    r.push(Field { declaration: "uint order;", offset: 0 });
    r.push(Field { declaration: "uint border_style;", offset: 4 });
    r.push(Field { declaration: "Bounds bounds;", offset: 8 });
    r.push(Field { declaration: "Bounds content_mask;", offset: 24 });
    r.push(Field { declaration: "Background background;", offset: 40 });
    r.push(Field { declaration: "Hsla border_color;", offset: 112 });
    r.push(Field { declaration: "Corners corner_radii;", offset: 128 });
    r.push(Field { declaration: "Edges border_widths;", offset: 144 });
    r.push(Field { declaration: "EdgeFadeParams fade;", offset: 160 });
    assert(members(r@) =~= quad_members());
    r
}

/// The members of a polychrome sprite in a shader, with their offsets.
pub open spec fn polychrome_sprite_members() -> Seq<(Seq<char>, int)> {
    seq![
        ("uint order;"@, 0int),
        ("uint pad;"@, 4int),
        ("uint grayscale;"@, 8int),
        ("float opacity;"@, 12int),
        ("Bounds bounds;"@, 16int),
        ("Bounds content_mask;"@, 32int),
        ("Corners corner_radii;"@, 48int),
        ("EdgeFadeParams fade;"@, 64int),
        ("AtlasTile tile;"@, 96int),
    ]
}

/// The members of a polychrome sprite in a shader, with their offsets.
pub fn polychrome_sprite_layout() -> (r: Vec<Field>)
    ensures
        members(r@) == polychrome_sprite_members(),
{
    let mut r: Vec<Field> = Vec::new();
    r.push(Field { declaration: "uint order;", offset: 0 });
    r.push(Field { declaration: "uint pad;", offset: 4 });
    r.push(Field { declaration: "uint grayscale;", offset: 8 });
    r.push(Field { declaration: "float opacity;", offset: 12 });
    r.push(Field { declaration: "Bounds bounds;", offset: 16 });
    r.push(Field { declaration: "Bounds content_mask;", offset: 32 });
    r.push(Field { declaration: "Corners corner_radii;", offset: 48 });
    r.push(Field { declaration: "EdgeFadeParams fade;", offset: 64 });
    r.push(Field { declaration: "AtlasTile tile;", offset: 96 });
    assert(members(r@) =~= polychrome_sprite_members());
    r
}

/// The words of an edge fade are where its members are declared to be: eight
/// packed floats.
pub proof fn law_edge_fade_layout(fade: EdgeFadeParams)
    ensures
        fade.words().len() * WORD_BYTES == 32,
        fade.words()[0] == fade.top_y.bits,
        fade.words()[1] == fade.bottom_y.bits,
        fade.words()[2] == fade.band_top.bits,
        fade.words()[3] == fade.band_bottom.bits,
        fade.words()[4] == fade.left_x.bits,
        fade.words()[5] == fade.right_x.bits,
        fade.words()[6] == fade.band_left.bits,
        fade.words()[7] == fade.band_right.bits,
        forall|i: int| 0 <= i < 8 ==> (#[trigger] edge_fade_members()[i]).1 == 4 * i,
{
}

/// The words of a quad are where its members are declared to be, with the fade
/// at the end.
pub proof fn law_quad_layout(quad: Quad)
    ensures
        quad.words().len() * WORD_BYTES == 192,
        quad.words()[0] == quad.order,
        quad.words()[1] == quad.border_style.word(),
        quad.words().subrange(2, 6) == quad.bounds.words(),
        quad.words().subrange(6, 10) == quad.content_mask.bounds.words(),
        quad.words().subrange(10, 28) == quad.background.words(),
        quad.words().subrange(28, 32) == quad.border_color.words(),
        quad.words().subrange(32, 36) == quad.corner_radii.words(),
        quad.words().subrange(36, 40) == quad.border_widths.words(),
        quad.words().subrange(40, 48) == quad.fade.words(),
        quad_members()[2].1 == 2 * WORD_BYTES,
        quad_members()[3].1 == 6 * WORD_BYTES,
        quad_members()[4].1 == 10 * WORD_BYTES,
        quad_members()[5].1 == 28 * WORD_BYTES,
        quad_members()[6].1 == 32 * WORD_BYTES,
        quad_members()[7].1 == 36 * WORD_BYTES,
        quad_members()[8].1 == 40 * WORD_BYTES,
{
}

/// The words of a polychrome sprite are where its members are declared to be,
/// with the fade before the tile.
pub proof fn law_polychrome_sprite_layout(sprite: PolychromeSprite)
    ensures
        sprite.words().len() * WORD_BYTES == 128,
        sprite.tile.words().len() * WORD_BYTES == 32,
        sprite.words()[0] == sprite.order,
        sprite.words()[1] == sprite.pad,
        sprite.words()[2] == if sprite.grayscale {
            1u32
        } else {
            0u32
        },
        sprite.words()[3] == sprite.opacity.bits,
        sprite.words().subrange(4, 8) == sprite.bounds.words(),
        sprite.words().subrange(8, 12) == sprite.content_mask.bounds.words(),
        sprite.words().subrange(12, 16) == sprite.corner_radii.words(),
        sprite.words().subrange(16, 24) == sprite.fade.words(),
        sprite.words().subrange(24, 32) == sprite.tile.words(),
        polychrome_sprite_members()[4].1 == 4 * WORD_BYTES,
        polychrome_sprite_members()[5].1 == 8 * WORD_BYTES,
        polychrome_sprite_members()[6].1 == 12 * WORD_BYTES,
        polychrome_sprite_members()[7].1 == 16 * WORD_BYTES,
        polychrome_sprite_members()[8].1 == 24 * WORD_BYTES,
{
}

/// A background is eighteen words: its kind and color space as numbers, the single
/// color, the angle or height, both stops with their colors before their places,
/// and a word of padding.
pub proof fn law_background_layout(b: Background)
    ensures
        ({
            let w = b.words();
            &&& w.len() == 18
            &&& w[0] == (if b.tag is Solid {
                0u32
            } else if b.tag is LinearGradient {
                1
            } else if b.tag is PatternSlash {
                2
            } else {
                3
            })
            &&& w[1] == (if b.color_space is Oklab {
                1u32
            } else {
                0
            })
            &&& w[2] == b.solid.h.bits && w[3] == b.solid.s.bits
            &&& w[4] == b.solid.l.bits && w[5] == b.solid.a.bits
            &&& w[6] == b.gradient_angle_or_pattern_height.bits
            &&& w[7] == b.first_stop.color.h.bits && w[8] == b.first_stop.color.s.bits
            &&& w[9] == b.first_stop.color.l.bits && w[10] == b.first_stop.color.a.bits
            &&& w[11] == b.first_stop.percentage.bits
            &&& w[12] == b.second_stop.color.h.bits && w[13] == b.second_stop.color.s.bits
            &&& w[14] == b.second_stop.color.l.bits && w[15] == b.second_stop.color.a.bits
            &&& w[16] == b.second_stop.percentage.bits
            &&& w[17] == 0
        }),
{
}

/// Every word of a quad, but for those of its background.
pub proof fn law_quad_words(q: Quad)
    ensures
        ({
            let w = q.words();
            &&& w.len() == 48
            &&& w[0] == q.order
            &&& w[1] == (if q.border_style is Dashed {
                1u32
            } else {
                0
            })
            &&& w[2] == q.bounds.origin.x.0.bits && w[3] == q.bounds.origin.y.0.bits
            &&& w[4] == q.bounds.size.width.0.bits && w[5] == q.bounds.size.height.0.bits
            &&& w[6] == q.content_mask.bounds.origin.x.0.bits
            &&& w[7] == q.content_mask.bounds.origin.y.0.bits
            &&& w[8] == q.content_mask.bounds.size.width.0.bits
            &&& w[9] == q.content_mask.bounds.size.height.0.bits
            &&& w.subrange(10, 28) == q.background.words()
            &&& w[28] == q.border_color.h.bits && w[29] == q.border_color.s.bits
            &&& w[30] == q.border_color.l.bits && w[31] == q.border_color.a.bits
            &&& w[32] == q.corner_radii.top_left.0.bits
            &&& w[33] == q.corner_radii.top_right.0.bits
            &&& w[34] == q.corner_radii.bottom_right.0.bits
            &&& w[35] == q.corner_radii.bottom_left.0.bits
            &&& w[36] == q.border_widths.top.0.bits && w[37] == q.border_widths.right.0.bits
            &&& w[38] == q.border_widths.bottom.0.bits && w[39] == q.border_widths.left.0.bits
            &&& w[40] == q.fade.top_y.bits && w[41] == q.fade.bottom_y.bits
            &&& w[42] == q.fade.band_top.bits && w[43] == q.fade.band_bottom.bits
            &&& w[44] == q.fade.left_x.bits && w[45] == q.fade.right_x.bits
            &&& w[46] == q.fade.band_left.bits && w[47] == q.fade.band_right.bits
        }),
{
    assert(q.words().subrange(10, 28) =~= q.background.words());
}

/// Every word of a colored sprite.
pub proof fn law_polychrome_sprite_words(s: PolychromeSprite)
    ensures
        ({
            let w = s.words();
            &&& w.len() == 32
            &&& w[0] == s.order && w[1] == s.pad
            &&& s.grayscale ==> w[2] == 1
            &&& !s.grayscale ==> w[2] == 0
            &&& w[3] == s.opacity.bits
            &&& w[4] == s.bounds.origin.x.0.bits && w[5] == s.bounds.origin.y.0.bits
            &&& w[6] == s.bounds.size.width.0.bits && w[7] == s.bounds.size.height.0.bits
            &&& w[8] == s.content_mask.bounds.origin.x.0.bits
            &&& w[9] == s.content_mask.bounds.origin.y.0.bits
            &&& w[10] == s.content_mask.bounds.size.width.0.bits
            &&& w[11] == s.content_mask.bounds.size.height.0.bits
            &&& w[12] == s.corner_radii.top_left.0.bits
            &&& w[13] == s.corner_radii.top_right.0.bits
            &&& w[14] == s.corner_radii.bottom_right.0.bits
            &&& w[15] == s.corner_radii.bottom_left.0.bits
            &&& w[16] == s.fade.top_y.bits && w[17] == s.fade.bottom_y.bits
            &&& w[18] == s.fade.band_top.bits && w[19] == s.fade.band_bottom.bits
            &&& w[20] == s.fade.left_x.bits && w[21] == s.fade.right_x.bits
            &&& w[22] == s.fade.band_left.bits && w[23] == s.fade.band_right.bits
            &&& w[24] == s.tile.texture_id.index
            &&& w[25] == (if s.tile.texture_id.kind is Monochrome {
                0u32
            } else if s.tile.texture_id.kind is Polychrome {
                1
            } else {
                2
            })
            &&& w[26] == s.tile.tile_id && w[27] == s.tile.padding
            &&& w[28] == s.tile.bounds.origin.x.0 as u32
            &&& w[29] == s.tile.bounds.origin.y.0 as u32
            &&& w[30] == s.tile.bounds.size.width.0 as u32
            &&& w[31] == s.tile.bounds.size.height.0 as u32
        }),
{
}

/// The bytes of words make up those words, four for each, with the least or with
/// the most significant one first.
pub proof fn law_bytes_make_words(words: Seq<u32>, i: int)
    requires
        0 <= i < words.len(),
    ensures
        bytes_of(words, true).len() == 4 * words.len(),
        bytes_of(words, false).len() == 4 * words.len(),
        ({
            let b = bytes_of(words, true);
            b[4 * i] + 256 * b[4 * i + 1] + 65536 * b[4 * i + 2] + 16777216 * b[4 * i + 3]
                == words[i]
        }),
        ({
            let b = bytes_of(words, false);
            16777216 * b[4 * i] + 65536 * b[4 * i + 1] + 256 * b[4 * i + 2] + b[4 * i + 3]
                == words[i]
        }),
{
    let w = words[i];
    assert((4 * i) / 4 == i && (4 * i) % 4 == 0);
    assert((4 * i + 1) / 4 == i && (4 * i + 1) % 4 == 1);
    assert((4 * i + 2) / 4 == i && (4 * i + 2) % 4 == 2);
    assert((4 * i + 3) / 4 == i && (4 * i + 3) % 4 == 3);
    let bytes = little_end_first(w);
    assert(w % 256 + 256 * ((w / 256) % 256) + 65536 * ((w / 65536) % 256) + 16777216 * ((w
        / 16777216) % 256) == w);
}

} // verus!
