//! Parameters that shaders read from uniform buffers: their words, and where in
//! the buffers they go.
use crate::float::Float32;
use crate::geometry::{Bounds, Corners, ScaledPixels};
use crate::layout::Words;
use vstd::prelude::*;

verus! {

/// Size in bytes of [`GlobalParams`].
pub const GLOBALS_SIZE: u64 = 16;

/// Size in bytes of [`GammaParams`].
pub const GAMMA_SIZE: u64 = 32;

/// Size in bytes of the parameters of a surface: its bounds and its clip.
pub const SURFACE_PARAMS_SIZE: u64 = 32;

/// Size in bytes of [`BlurPassUniform`].
pub const BLUR_PASS_SIZE: u64 = 560;

/// Size in bytes of [`BackdropBlurUniform`].
pub const BACKDROP_SIZE: u64 = 64;

/// Upper bound on blurs drawn per frame; each holds three uniform slots.
pub const BACKDROP_MAX_BLURS: usize = 32;

/// What every shader knows of the frame.
#[derive(Clone, Copy, Debug)]
pub struct GlobalParams {
    pub viewport_size: [Float32; 2],
    pub premultiplied_alpha: bool,
}

impl GlobalParams {
    /// The last word is padding.
    pub open spec fn words(self) -> Seq<u32> {
        seq![
            self.viewport_size[0].bits,
            self.viewport_size[1].bits,
            if self.premultiplied_alpha {
                1u32
            } else {
                0u32
            },
            0u32,
        ]
    }

    pub fn to_words(&self) -> (r: Vec<u32>)
        ensures
            r@ == self.words(),
            r@.len() * 4 == GLOBALS_SIZE,
    {
        let mut w = Words::new();
        w.push_float(self.viewport_size[0]);
        w.push_float(self.viewport_size[1]);
        w.push(
            if self.premultiplied_alpha {
                1
            } else {
                0
            },
        );
        w.push(0);
        w.words
    }
}

/// How text is smoothed.
#[derive(Clone, Copy, Debug)]
pub struct GammaParams {
    pub gamma_ratios: [Float32; 4],
    pub grayscale_enhanced_contrast: Float32,
    pub subpixel_enhanced_contrast: Float32,
    pub is_bgr: bool,
}

impl GammaParams {
    /// The last word is padding.
    pub open spec fn words(self) -> Seq<u32> {
        seq![
            self.gamma_ratios[0].bits,
            self.gamma_ratios[1].bits,
            self.gamma_ratios[2].bits,
            self.gamma_ratios[3].bits,
            self.grayscale_enhanced_contrast.bits,
            self.subpixel_enhanced_contrast.bits,
            if self.is_bgr {
                1u32
            } else {
                0u32
            },
            0u32,
        ]
    }

    pub fn to_words(&self) -> (r: Vec<u32>)
        ensures
            r@ == self.words(),
            r@.len() * 4 == GAMMA_SIZE,
    {
        let mut w = Words::new();
        w.push_float(self.gamma_ratios[0]);
        w.push_float(self.gamma_ratios[1]);
        w.push_float(self.gamma_ratios[2]);
        w.push_float(self.gamma_ratios[3]);
        w.push_float(self.grayscale_enhanced_contrast);
        w.push_float(self.subpixel_enhanced_contrast);
        w.push(
            if self.is_bgr {
                1
            } else {
                0
            },
        );
        w.push(0);
        w.words
    }
}

/// Parameters of one pass of a separable blur.
#[derive(Clone, Copy, Debug)]
pub struct BlurPassUniform {
    pub direction: [Float32; 2],
    pub sigma: Float32,
    pub stride: Float32,
    pub source_texel_size: [Float32; 2],
    pub weights: [[Float32; 4]; 33],
}

/// The bits of a table of weights, row by row.
pub open spec fn weight_words(weights: [[Float32; 4]; 33]) -> Seq<u32> {
    Seq::new(132, |i: int| weights[i / 4][i % 4].bits)
}

impl BlurPassUniform {
    /// Two words of padding stand before the weights.
    pub open spec fn words(self) -> Seq<u32> {
        seq![
            self.direction[0].bits,
            self.direction[1].bits,
            self.sigma.bits,
            self.stride.bits,
            self.source_texel_size[0].bits,
            self.source_texel_size[1].bits,
            0u32,
            0u32,
        ] + weight_words(self.weights)
    }

    pub fn to_words(&self) -> (r: Vec<u32>)
        ensures
            r@ == self.words(),
            r@.len() * 4 == BLUR_PASS_SIZE,
    {
        let mut w = Words::new();
        w.push_float(self.direction[0]);
        w.push_float(self.direction[1]);
        w.push_float(self.sigma);
        w.push_float(self.stride);
        w.push_float(self.source_texel_size[0]);
        w.push_float(self.source_texel_size[1]);
        w.push(0);
        w.push(0);
        let ghost head = w@;
        let mut i: usize = 0;
        while i < 132
            invariant
                i <= 132,
                w@ == head + weight_words(self.weights).subrange(0, i as int),
            decreases 132 - i,
        {
            w.push_float(self.weights[i / 4][i % 4]);
            proof {
                let all = weight_words(self.weights);
                assert(all.subrange(0, i + 1) == all.subrange(0, i as int).push(all[i as int]));
            }
            i = i + 1;
        }
        assert(weight_words(self.weights).subrange(0, 132) == weight_words(self.weights));
        w.words
    }
}

/// Parameters of painting a blurred snapshot.
#[derive(Clone, Copy, Debug)]
pub struct BackdropBlurUniform {
    pub bounds: Bounds<ScaledPixels>,
    pub corner_radii: Corners<ScaledPixels>,
    pub clip_bounds: Bounds<ScaledPixels>,
    pub source_rect: [Float32; 4],
}

impl BackdropBlurUniform {
    pub open spec fn words(self) -> Seq<u32> {
        self.bounds.words() + self.corner_radii.words() + self.clip_bounds.words() + seq![
            self.source_rect[0].bits,
            self.source_rect[1].bits,
            self.source_rect[2].bits,
            self.source_rect[3].bits,
        ]
    }

    pub fn to_words(&self) -> (r: Vec<u32>)
        ensures
            r@ == self.words(),
            r@.len() * 4 == BACKDROP_SIZE,
    {
        let mut w = Words::new();
        w.push_bounds(&self.bounds);
        w.push_corners(&self.corner_radii);
        w.push_bounds(&self.clip_bounds);
        w.push_float(self.source_rect[0]);
        w.push_float(self.source_rect[1]);
        w.push_float(self.source_rect[2]);
        w.push_float(self.source_rect[3]);
        assert(w@ =~= self.words());
        w.words
    }
}

/// The least multiple of `alignment` that is not below `n`.
pub open spec fn align_up(n: int, alignment: int) -> int {
    ((n + alignment - 1) / alignment) * alignment
}

/// Bounds on an aligned number, and what leaves it unchanged.
pub proof fn lemma_align_up(n: int, alignment: int)
    requires
        0 <= n,
        0 < alignment,
    ensures
        n <= align_up(n, alignment) < n + alignment,
        align_up(n, alignment) % alignment == 0,
        align_up(n, alignment) == if n % alignment == 0 {
            n
        } else {
            n + (alignment - n % alignment)
        },
{
    let q = n / alignment;
    let r = n % alignment;
    vstd::arithmetic::div_mod::lemma_fundamental_div_mod(n, alignment);
    if r == 0 {
        vstd::arithmetic::div_mod::lemma_fundamental_div_mod_converse(
            n + alignment - 1,
            alignment,
            q,
            alignment - 1,
        );
    } else {
        assert(alignment * (q + 1) == alignment * q + alignment) by (nonlinear_arith);
        vstd::arithmetic::div_mod::lemma_fundamental_div_mod_converse(
            n + alignment - 1,
            alignment,
            q + 1,
            r - 1,
        );
    }
    let k = (n + alignment - 1) / alignment;
    assert(k * alignment == alignment * k) by (nonlinear_arith);
    assert((q + 1) * alignment == alignment * q + alignment) by (nonlinear_arith);
    vstd::arithmetic::div_mod::lemma_mod_multiples_basic(k, alignment);
}

/// The least multiple of `alignment` that is not below `n`.
pub fn next_multiple(n: u64, alignment: u64) -> (r: u64)
    requires
        alignment > 0,
        align_up(n as int, alignment as int) <= u64::MAX,
    ensures
        r == align_up(n as int, alignment as int),
{
    proof {
        lemma_align_up(n as int, alignment as int);
    }
    let rest: u64 = n % alignment;
    if rest == 0 {
        n
    } else {
        n + (alignment - rest)
    }
}

/// Where uniforms go in their buffers.
#[derive(Clone, Copy, Debug, PartialEq, Eq, Structural)]
pub struct UniformLayout {
    /// The globals of paths; those of everything else are at the start.
    pub path_globals_offset: u64,
    pub gamma_offset: u64,
    pub globals_buffer_size: u64,
    /// Distance in bytes between uniform slots of backdrop blurs.
    pub backdrop_slot_stride: u64,
    pub backdrop_buffer_size: u64,
}

impl UniformLayout {
    /// The layout for a device that wants uniforms at multiples of `alignment`.
    pub open spec fn aligned(alignment: int) -> UniformLayout {
        let path_globals_offset = align_up(GLOBALS_SIZE as int, alignment);
        let gamma_offset = align_up(path_globals_offset + GLOBALS_SIZE, alignment);
        let widest = if alignment > BLUR_PASS_SIZE {
            alignment
        } else {
            BLUR_PASS_SIZE as int
        };
        let stride = align_up(widest, alignment);
        UniformLayout {
            path_globals_offset: path_globals_offset as u64,
            gamma_offset: gamma_offset as u64,
            globals_buffer_size: (gamma_offset + GAMMA_SIZE) as u64,
            backdrop_slot_stride: stride as u64,
            backdrop_buffer_size: (stride * BACKDROP_MAX_BLURS * 3) as u64,
        }
    }

    pub fn new(alignment: u32) -> (r: UniformLayout)
        requires
            alignment > 0,
        ensures
            r == UniformLayout::aligned(alignment as int),
            r.valid(alignment as int),
    {
        let alignment: u64 = alignment as u64;
        let ghost a = alignment as int;
        proof {
            lemma_align_up(16, a);
            lemma_align_up(align_up(16, a) + 16, a);
            lemma_align_up(560, a);
            lemma_align_up(a, a);
        }
        let path_globals_offset: u64 = next_multiple(GLOBALS_SIZE, alignment);
        let gamma_offset: u64 = next_multiple(path_globals_offset + GLOBALS_SIZE, alignment);
        let widest: u64 = if alignment > BLUR_PASS_SIZE {
            alignment
        } else {
            BLUR_PASS_SIZE
        };
        let backdrop_slot_stride: u64 = next_multiple(widest, alignment);
        UniformLayout {
            path_globals_offset,
            gamma_offset,
            globals_buffer_size: gamma_offset + GAMMA_SIZE,
            backdrop_slot_stride,
            backdrop_buffer_size: backdrop_slot_stride * 32 * 3,
        }
    }

    /// Every uniform has its own place, at a multiple of the alignment and
    /// inside its buffer.
    pub open spec fn valid(self, alignment: int) -> bool {
        &&& alignment > 0
        &&& GLOBALS_SIZE <= self.path_globals_offset
        &&& self.path_globals_offset + GLOBALS_SIZE <= self.gamma_offset
        &&& self.gamma_offset + GAMMA_SIZE == self.globals_buffer_size
        &&& self.path_globals_offset as int % alignment == 0
        &&& self.gamma_offset as int % alignment == 0
        &&& self.backdrop_slot_stride as int % alignment == 0
        &&& BLUR_PASS_SIZE <= self.backdrop_slot_stride
        &&& self.backdrop_buffer_size == self.backdrop_slot_stride * BACKDROP_MAX_BLURS * 3
    }

    /// Where one of the three uniforms of a blur goes: the horizontal pass, the
    /// vertical pass and the composite.
    pub open spec fn slot_offset(self, blur: int, part: int) -> int {
        self.backdrop_slot_stride * (3 * blur + part)
    }

    pub fn slot(&self, blur: usize, part: usize) -> (r: u64)
        requires
            blur < BACKDROP_MAX_BLURS,
            part < 3,
            self.backdrop_slot_stride * BACKDROP_MAX_BLURS * 3 <= u64::MAX,
        ensures
            r == self.slot_offset(blur as int, part as int),
    {
        let n: u64 = 3 * (blur as u64) + part as u64;
        assert(self.backdrop_slot_stride * n <= self.backdrop_slot_stride * 96) by (nonlinear_arith)
            requires
                n <= 96,
        ;
        self.backdrop_slot_stride * n
    }
}

/// The slots of all blurs of a frame are aligned, are inside their buffer, and
/// no two of them overlap.
pub proof fn law_slots_are_disjoint(
    layout: UniformLayout,
    alignment: int,
    blur: int,
    part: int,
    other_blur: int,
    other_part: int,
)
    requires
        layout.valid(alignment),
        0 <= blur < BACKDROP_MAX_BLURS,
        0 <= part < 3,
        0 <= other_blur < BACKDROP_MAX_BLURS,
        0 <= other_part < 3,
        blur != other_blur || part != other_part,
    ensures
        layout.slot_offset(blur, part) % alignment == 0,
        layout.slot_offset(blur, part) + BLUR_PASS_SIZE <= layout.backdrop_buffer_size,
        ({
            let a = layout.slot_offset(blur, part);
            let b = layout.slot_offset(other_blur, other_part);
            a + BLUR_PASS_SIZE <= b || b + BLUR_PASS_SIZE <= a
        }),
{
    let s = layout.backdrop_slot_stride as int;
    let n = 3 * blur + part;
    let m = 3 * other_blur + other_part;
    assert(s * n + s <= s * 96) by (nonlinear_arith)
        requires
            n + 1 <= 96,
            s >= 0,
    ;
    assert(s * 96 == s * 32 * 3);
    if n < m {
        assert(s * n + s <= s * m) by (nonlinear_arith)
            requires
                n + 1 <= m,
                s >= 0,
        ;
    } else {
        assert(s * m + s <= s * n) by (nonlinear_arith)
            requires
                m + 1 <= n,
                s >= 0,
        ;
    }
    vstd::arithmetic::div_mod::lemma_fundamental_div_mod(s, alignment);
    let q = s / alignment;
    assert(s * n == (q * n) * alignment) by (nonlinear_arith)
        requires
            s == alignment * q,
    ;
    vstd::arithmetic::div_mod::lemma_mod_multiples_basic(q * n, alignment);
}

/// An aligned number is the least multiple that is not below the number.
pub proof fn law_align_up_is_least(n: int, alignment: int, multiple: int)
    requires
        0 <= n,
        0 < alignment,
        n <= multiple,
        multiple % alignment == 0,
    ensures
        n <= align_up(n, alignment) <= multiple,
        align_up(n, alignment) % alignment == 0,
{
    lemma_align_up(n, alignment);
    let least = align_up(n, alignment);
    if multiple < least {
        vstd::arithmetic::div_mod::lemma_fundamental_div_mod(multiple, alignment);
        vstd::arithmetic::div_mod::lemma_fundamental_div_mod(least, alignment);
        let i = multiple / alignment;
        let j = least / alignment;
        assert(false) by (nonlinear_arith)
            requires
                multiple == alignment * i,
                least == alignment * j,
                multiple < least,
                least < multiple + alignment,
                alignment > 0,
        ;
    }
}

/// The uniforms of a frame each have a place of their own: sixteen bytes for the
/// globals, then sixteen for those of paths, then 32 for text, all at the first
/// multiple of the alignment that is free, and the buffer ends behind them. Slots
/// for blurs are as long as the longest of their uniforms, 560 bytes, brought to a
/// multiple of the alignment, and their buffer has three for each of 32 blurs.
pub proof fn law_uniforms_have_places(alignment: int)
    requires
        0 < alignment <= u32::MAX,
    ensures
        ({
            let layout = UniformLayout::aligned(alignment);
            let path = layout.path_globals_offset as int;
            let gamma = layout.gamma_offset as int;
            let slot = layout.backdrop_slot_stride as int;
            &&& path % alignment == 0 && 16 <= path < 16 + alignment
            &&& gamma % alignment == 0 && path + 16 <= gamma < path + 16 + alignment
            &&& layout.globals_buffer_size == gamma + 32
            &&& slot % alignment == 0 && 560 <= slot < 560 + alignment
            &&& layout.backdrop_buffer_size == 96 * slot
        }),
{
    lemma_align_up(16, alignment);
    lemma_align_up(align_up(16, alignment) + 16, alignment);
    lemma_align_up(560, alignment);
    lemma_align_up(alignment, alignment);
}

/// The three uniforms of each blur follow each other, slot after slot, and so do
/// those of different blurs.
pub proof fn law_slots_follow_each_other(layout: UniformLayout, blur: int)
    ensures
        layout.slot_offset(0, 0) == 0,
        layout.slot_offset(blur, 1) == layout.slot_offset(blur, 0) + layout.backdrop_slot_stride,
        layout.slot_offset(blur, 2) == layout.slot_offset(blur, 1) + layout.backdrop_slot_stride,
        layout.slot_offset(blur + 1, 0) == layout.slot_offset(blur, 2)
            + layout.backdrop_slot_stride,
{
    let s = layout.backdrop_slot_stride as int;
    assert(s * (3 * blur + 1) == s * (3 * blur + 0) + s) by (nonlinear_arith);
    assert(s * (3 * blur + 2) == s * (3 * blur + 1) + s) by (nonlinear_arith);
    assert(s * (3 * (blur + 1) + 0) == s * (3 * blur + 2) + s) by (nonlinear_arith);
    assert(s * (3 * 0 + 0) == 0) by (nonlinear_arith);
}

/// Every word of the parameters of a frame and of text.
pub proof fn law_parameter_words(globals: GlobalParams, gamma: GammaParams)
    ensures
        ({
            let w = globals.words();
            &&& w.len() == 4
            &&& w[0] == globals.viewport_size[0].bits && w[1] == globals.viewport_size[1].bits
            &&& (w[2] == 1) == globals.premultiplied_alpha && w[2] <= 1
            &&& w[3] == 0
        }),
        ({
            let w = gamma.words();
            &&& w.len() == 8
            &&& forall|i: int| 0 <= i < 4 ==> #[trigger] w[i] == gamma.gamma_ratios[i].bits
            &&& w[4] == gamma.grayscale_enhanced_contrast.bits
            &&& w[5] == gamma.subpixel_enhanced_contrast.bits
            &&& (w[6] == 1) == gamma.is_bgr && w[6] <= 1
            &&& w[7] == 0
        }),
{
}

} // verus!
