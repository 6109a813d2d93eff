//! What a backdrop blur paints, and what its shaders are told.
use crate::backdrop::{
    composite_words, ensured_scratch, far_edge, horizontal_rectangle, kernel_words,
    law_blur_stays_inside, near_edge, pass_words, scratch_length, texel_count, vertical_rectangle,
    BackdropScratch,
};
use crate::blur_coverage::{
    law_padding_holds_reach, law_reach_is_three_deviations, law_regions_cover_samples,
    sampled_texel, COVERAGE_LIMIT,
};
use crate::blur_kernel::{
    between, horizontal_extent, kernel_radius, kernel_sigma, law_regions_are_nested,
    law_regions_cover_vertical_taps, vertical_extent, vertical_reach,
};
use crate::blur_weights::{
    both_sides, falling, law_weights_are_normalized, normalizable, sample_units, weight_units,
};
use crate::commands::{BackdropSource, FrameParams, Progress, Step};
use crate::drawing::scissor;
use crate::float::{
    lemma_from_nat_value, lemma_pow2_add, lemma_pow2_below, lemma_quotient_value, lemma_scale_of,
    one, Float32, Value,
};
use crate::frame::{blur_drawn, pass_drawn};
use crate::pipelines::PipelineKind;
use crate::replay::{lemma_replay_then, replay, Canvas, Data, Effect};
use crate::scene::BackdropBlur;
use crate::geometry::{Bounds, ScaledPixels};
use crate::geometry_laws::is_whole;
use crate::rounding;
use crate::uniforms::{lemma_align_up, BACKDROP_SIZE, BLUR_PASS_SIZE};
use vstd::arithmetic::power2::{lemma_pow2_pos, pow2};
use vstd::prelude::*;

verus! {

/// Textures that hold a region, are filled by the frame, and have the same number
/// of pixels in each texel, are kept. Otherwise new ones are made, whose sides
/// hold the region and are multiples of 256 pixels, as far as the frame goes.
/// The products have just as many texels as hold all pixels.
pub proof fn law_scratch_is_kept_or_made(
    current: Option<BackdropScratch>,
    needed_width: u32,
    needed_height: u32,
    downsample: u32,
    drawable_width: u32,
    drawable_height: u32,
)
    requires
        0 < needed_width <= drawable_width,
        0 < needed_height <= drawable_height,
        downsample > 0,
    ensures
        ({
            let s = ensured_scratch(
                current,
                needed_width,
                needed_height,
                downsample,
                drawable_width,
                drawable_height,
            );
            let keeps = match current {
                Some(c) => c.downsample == downsample && needed_width <= c.width
                    && needed_height <= c.height && c.width <= drawable_width && c.height
                    <= drawable_height,
                None => false,
            };
            &&& s.downsample == downsample
            &&& needed_width <= s.width <= drawable_width
            &&& needed_height <= s.height <= drawable_height
            &&& keeps ==> current == Some(s)
            &&& !keeps ==> {
                &&& s.width == drawable_width || (s.width % 256 == 0 && s.width < needed_width
                    + 256)
                &&& s.height == drawable_height || (s.height % 256 == 0 && s.height < needed_height
                    + 256)
                &&& s.blur_width * downsample >= s.width
                &&& (s.blur_width - 1) * downsample < s.width
                &&& s.blur_height * downsample >= s.height
                &&& (s.blur_height - 1) * downsample < s.height
            }
        }),
{
    lemma_align_up(needed_width as int, 256);
    lemma_align_up(needed_height as int, 256);
    lemma_texels(scratch_length(needed_width, drawable_width), downsample);
    lemma_texels(scratch_length(needed_height, drawable_height), downsample);
}

/// A number of texels is the least that holds all pixels.
proof fn lemma_texels(n: u32, downsample: u32)
    requires
        n > 0,
        downsample > 0,
    ensures
        texel_count(n, downsample) * downsample >= n,
        (texel_count(n, downsample) - 1) * downsample < n,
{
    let d = downsample as int;
    let s = n + d - 1;
    vstd::arithmetic::div_mod::lemma_fundamental_div_mod(s, d);
    let q = s / d;
    assert(d * q == q * d && (q - 1) * d == q * d - d) by (nonlinear_arith);
    assert(0 <= q <= n) by (nonlinear_arith)
        requires
            s == d * q + s % d,
            0 <= s % d < d,
            s == n + d - 1,
            n >= 1,
            d > 0,
    ;
}

/// The effects of one pass of a blur: its canvas is cleared, and a rectangle of
/// it is painted, unless that is empty.
pub open spec fn pass_painted(
    effects: Seq<Effect>,
    canvas: Canvas,
    words: Seq<u32>,
    source: BackdropSource,
    region: Seq<u32>,
) -> Seq<Effect> {
    let cleared = effects.push(Effect::Clear { canvas });
    if region[2] > 0 && region[3] > 0 {
        cleared.push(
            Effect::Paint {
                canvas,
                pipeline: PipelineKind::BackdropBlurPass,
                data: Data::Backdrop { words, source },
                scissor: Some((region[0], region[1], region[2], region[3])),
                vertices: 4,
                instances: 1,
            },
        )
    } else {
        cleared
    }
}

proof fn lemma_pass(
    p: Progress,
    vertical: bool,
    offset: int,
    words: Seq<u32>,
    source: BackdropSource,
    region: Seq<u32>,
)
    requires
        replay(p.steps).uniforms.contains_key(offset),
        replay(p.steps).uniforms[offset] == words,
        4 * words.len() == BLUR_PASS_SIZE,
    ensures
        ({
            let before = replay(p.steps);
            let after = replay(pass_drawn(p, vertical, offset, source, region).steps);
            let canvas = if vertical {
                Canvas::Vertical
            } else {
                Canvas::Horizontal
            };
            &&& after.uniforms == before.uniforms
            &&& after.effects == pass_painted(before.effects, canvas, words, source, region)
        }),
{
    let begin = Step::BeginBlurPass { vertical };
    let pipeline = Step::SetPipeline { kind: PipelineKind::BackdropBlurPass };
    let bind = Step::BindBackdrop { offset, size: BLUR_PASS_SIZE as int, source };
    lemma_replay_then(p, begin);
    lemma_replay_then(p.then_do(begin), pipeline);
    lemma_replay_then(p.then_do(begin).then_do(pipeline), bind);
    let q = p.then_do(begin).then_do(pipeline).then_do(bind);
    lemma_replay_then(q, scissor(region));
    lemma_replay_then(q.then_do(scissor(region)), Step::Draw { vertices: 4, instances: 1 });
}

proof fn lemma_slots(params: FrameParams, slot: int)
    requires
        params.valid(),
    ensures
        params.uniforms.slot_offset(slot, 0) < params.uniforms.slot_offset(slot, 1),
        params.uniforms.slot_offset(slot, 1) < params.uniforms.slot_offset(slot, 2),
{
    let s = params.uniforms.backdrop_slot_stride as int;
    assert(s * (3 * slot + 1) == s * (3 * slot + 0) + s) by (nonlinear_arith);
    assert(s * (3 * slot + 2) == s * (3 * slot + 1) + s) by (nonlinear_arith);
}

/// The effects of a blur on a frame of this size: a part of the frame is copied,
/// the copy is blurred along its rows and the product of that along its columns,
/// and the product of both is put on the frame. Textures are replaced just if
/// other ones are needed.
pub open spec fn blur_painted(
    effects: Seq<Effect>,
    blur: BackdropBlur,
    scratch: Option<BackdropScratch>,
    width: u32,
    height: u32,
    samples: Seq<Float32>,
) -> Seq<Effect> {
    let s = blur.steps(scratch, width, height, samples);
    let ready = if scratch == Some(s.scratch) {
        effects
    } else {
        effects.push(Effect::Replace { scratch: s.scratch })
    };
    let copied = ready.push(
        Effect::Copy {
            left: s.copy_x,
            top: s.copy_y,
            width: s.scratch.width,
            height: s.scratch.height,
        },
    );
    let rows = pass_painted(
        copied,
        Canvas::Horizontal,
        s.horizontal_words,
        BackdropSource::Snapshot,
        s.horizontal_region,
    );
    let columns = pass_painted(
        rows,
        Canvas::Vertical,
        s.vertical_words,
        BackdropSource::Horizontal,
        s.vertical_region,
    );
    columns.push(
        Effect::Paint {
            canvas: Canvas::Frame,
            pipeline: PipelineKind::BackdropComposite,
            data: Data::Backdrop { words: s.composite_words, source: BackdropSource::Vertical },
            scissor: None,
            vertices: 4,
            instances: 1,
        },
    )
}

/// A blur that is on screen copies the frame as it is so far, blurs the copy and
/// puts it back. A blur that is off screen changes nothing. Either way drawing
/// goes on at the frame, open to all of it.
#[verifier::rlimit(40)]
pub proof fn law_blur_is_painted(
    params: FrameParams,
    p: Progress,
    blur: BackdropBlur,
    slot: int,
    samples: Seq<Float32>,
)
    requires
        params.valid(),
        p.scratch is Some ==> p.scratch->0.valid(),
    ensures
        ({
            let next = blur_drawn(params, p, blur, slot, samples);
            let before = replay(p.steps);
            let after = replay(next.steps);
            let (width, height) = (params.width, params.height);
            &&& after.canvas == Some(Canvas::Frame) && after.scissor is None
            &&& blur.on_screen(width, height) ==> {
                &&& after.effects == blur_painted(
                    before.effects,
                    blur,
                    p.scratch,
                    width,
                    height,
                    samples,
                )
                &&& next.scratch == Some(blur.steps(p.scratch, width, height, samples).scratch)
            }
            &&& !blur.on_screen(width, height) ==> {
                &&& after.effects == before.effects
                &&& next.scratch == p.scratch
            }
            &&& next.offset == p.offset
        }),
{
    reveal(blur_drawn);
    if !blur.on_screen(params.width, params.height) {
        lemma_replay_then(p, Step::ContinueMainPass);
    } else {
        law_blur_stays_inside(blur, p.scratch, params.width, params.height, samples);
        lemma_slots(params, slot);
        let s = blur.steps(p.scratch, params.width, params.height, samples);
        let horizontal = params.uniforms.slot_offset(slot, 0);
        let vertical = params.uniforms.slot_offset(slot, 1);
        let composite = params.uniforms.slot_offset(slot, 2);
        let create = Step::CreateScratch { scratch: s.scratch };
        lemma_replay_then(p, create);
        let made = if s.create {
            p.then_do(create)
        } else {
            p
        };
        let ready = Progress { scratch: Some(s.scratch), ..made };
        let copy = Step::CopyToSnapshot {
            left: s.copy_x,
            top: s.copy_y,
            width: s.scratch.width,
            height: s.scratch.height,
        };
        lemma_replay_then(ready, copy);
        let a = ready.then_do(copy);
        let write_a = Step::WriteBackdropUniform { offset: horizontal, words: s.horizontal_words };
        let write_b = Step::WriteBackdropUniform { offset: vertical, words: s.vertical_words };
        let write_c = Step::WriteBackdropUniform { offset: composite, words: s.composite_words };
        lemma_replay_then(a, write_a);
        lemma_replay_then(a.then_do(write_a), write_b);
        lemma_replay_then(a.then_do(write_a).then_do(write_b), write_c);
        let d = a.then_do(write_a).then_do(write_b).then_do(write_c);
        lemma_pass(
            d,
            false,
            horizontal,
            s.horizontal_words,
            BackdropSource::Snapshot,
            s.horizontal_region,
        );
        let first = pass_drawn(
            d,
            false,
            horizontal,
            BackdropSource::Snapshot,
            s.horizontal_region,
        );
        lemma_pass(
            first,
            true,
            vertical,
            s.vertical_words,
            BackdropSource::Horizontal,
            s.vertical_region,
        );
        let second = pass_drawn(
            first,
            true,
            vertical,
            BackdropSource::Horizontal,
            s.vertical_region,
        );
        let pipeline = Step::SetPipeline { kind: PipelineKind::BackdropComposite };
        let bind = Step::BindBackdrop {
            offset: composite,
            size: BACKDROP_SIZE as int,
            source: BackdropSource::Vertical,
        };
        lemma_replay_then(second, Step::ContinueMainPass);
        let e = second.then_do(Step::ContinueMainPass);
        lemma_replay_then(e, pipeline);
        lemma_replay_then(e.then_do(pipeline), bind);
        lemma_replay_then(
            e.then_do(pipeline).then_do(bind),
            Step::Draw { vertices: 4, instances: 1 },
        );
        lemma_create(blur, p.scratch, params.width, params.height, samples);
    }
}

/// Textures are made exactly if those at hand are not the ones that are used.
proof fn lemma_create(
    blur: BackdropBlur,
    current: Option<BackdropScratch>,
    drawable_width: u32,
    drawable_height: u32,
    samples: Seq<Float32>,
)
    requires
        blur.on_screen(drawable_width, drawable_height),
    ensures
        ({
            let s = blur.steps(current, drawable_width, drawable_height, samples);
            s.create <==> current != Some(s.scratch)
        }),
{
    let (x0, y0, x1, y1) = blur.padded_region(drawable_width, drawable_height);
    assert(0 <= x0 && 0 <= y0 && x1 <= drawable_width && y1 <= drawable_height) by {
        reveal(BackdropBlur::padded_region);
    }
    assert(1 <= blur.downsample() <= 4) by {
        reveal(BackdropBlur::downsample);
    }
    law_scratch_is_kept_or_made(
        current,
        (x1 - x0) as u32,
        (y1 - y0) as u32,
        blur.downsample(),
        drawable_width,
        drawable_height,
    );
}

/// The deviation that a blur asks for, in units: its radius, but at least a
/// pixel.
pub open spec fn deviation(blur: BackdropBlur) -> int {
    let radius = blur.blur_radius.0@.units();
    if radius < one() {
        one() as int
    } else {
        radius
    }
}

proof fn lemma_deviation(blur: BackdropBlur)
    requires
        blur.blur_radius.0@ is Finite,
    ensures
        blur.sigma()@ is Finite,
        blur.sigma()@.units() == deviation(blur),
        blur.sigma()@.units() >= one(),
{
    reveal(BackdropBlur::sigma);
    lemma_one();
}

/// The encoding of one.
proof fn lemma_one()
    ensures
        (Float32 { bits: 0x3f80_0000 })@ == Value::whole(false, 1),
        Value::whole(false, 1).units() == one(),
        is_whole(Float32 { bits: 0x3f80_0000 }, 1),
        is_whole(Float32 { bits: 0 }, 0),
        (Float32 { bits: 0x3f00_0000 })@ is Finite,
        2 * (Float32 { bits: 0x3f00_0000 })@.units() == one(),
{
    vstd::arithmetic::power2::lemma2_to64();
    lemma_pow2_add(23, 126);
    lemma_pow2_add(23, 125);
    lemma_pow2_add(1, 148);
    assert(1 * one() == one());
    assert(0 * one() == 0);
}

/// An eighth of a number that is at least one is exact.
proof fn lemma_eighth(a: Float32)
    requires
        a@ is Finite,
        a@.units() >= one(),
    ensures
        a@.over(Value::whole(false, 8)) is Finite,
        8 * a@.over(Value::whole(false, 8)).units() == a@.units(),
        !a@.over(Value::whole(false, 8))->Finite_negative,
{
    reveal(Value::over);
    let (m, k) = lemma_scale_of(a);
    let n = a@->Finite_magnitude;
    lemma_pow2_pos(149);
    lemma_pow2_pos(277);
    vstd::arithmetic::power2::lemma2_to64();
    lemma_pow2_add(3, (k - 3) as nat);
    let part = m * pow2((k - 3) as nat);
    assert(n == 8 * part) by (nonlinear_arith)
        requires
            n == m * pow2(k),
            pow2(k) == 8 * pow2((k - 3) as nat),
            part == m * pow2((k - 3) as nat),
    ;
    rounding::lemma_nearest_magnitude_scale(n, 8, one());
    assert(one() * n == n * one()) by (nonlinear_arith);
    assert(one() * 8 == 8 * one());
    rounding::lemma_nearest_magnitude_scale(part, 1, 8);
    rounding::lemma_nearest_magnitude_exact(m, (k - 3) as nat);
    crate::float::lemma_magnitude_limit(a);
}

/// How many pixels a texel spans: as many as there are eights in the deviation,
/// but at least one and at most four.
pub proof fn law_downsampling(blur: BackdropBlur)
    requires
        blur.blur_radius.0@ is Finite,
    ensures
        1 <= blur.downsample() <= 4,
        blur.downsample() > 1 ==> 8 * (blur.downsample() * one()) <= deviation(blur),
        blur.downsample() < 4 ==> deviation(blur) < 8 * ((blur.downsample() + 1) * one()),
{
    reveal(BackdropBlur::downsample);
    lemma_deviation(blur);
    lemma_eighth(blur.sigma());
    let e = blur.sigma()@.over(Value::whole(false, 8));
    let m = e->Finite_magnitude as int;
    let u = one() as int;
    lemma_pow2_pos(149);
    vstd::arithmetic::div_mod::lemma_fundamental_div_mod(m, u);
    let q = m / u;
    assert(q * u <= m < (q + 1) * u) by (nonlinear_arith)
        requires
            m == u * q + m % u,
            0 <= m % u < u,
    ;
    assert(q >= 0) by (nonlinear_arith)
        requires
            m < (q + 1) * u,
            m >= 0,
            u > 0,
    ;
    assert(q >= 4 ==> 4 * u <= q * u) by (nonlinear_arith)
        requires
            u > 0,
    ;
    assert(q < 1 ==> (q + 1) * u <= (1 + 1) * u) by (nonlinear_arith)
        requires
            u > 0,
    ;
    assert(e.truncated_int() == q);
    assert(q <= 4 ==> blur.downsample() == if q < 1 {
        1
    } else {
        q
    });
}

/// The deviation in texels, times the pixels in a texel, is the deviation in
/// pixels: off by at most two to the power -24 of it.
pub proof fn law_texel_deviation(blur: BackdropBlur)
    requires
        blur.blur_radius.0@ is Finite,
    ensures
        blur.texel_sigma()@ is Finite,
        blur.texel_sigma()@.units() >= one(),
        ({
            let off = blur.texel_sigma()@.units() * blur.downsample() - deviation(blur);
            -deviation(blur) <= 0x100_0000 * off <= deviation(blur)
        }),
{
    reveal(BackdropBlur::texel_sigma);
    law_downsampling(blur);
    lemma_deviation(blur);
    lemma_one();
    let sigma = blur.sigma();
    let d = blur.downsample() as nat;
    let n = sigma@->Finite_magnitude;
    let u = one();
    lemma_pow2_pos(149);
    vstd::arithmetic::power2::lemma2_to64();
    lemma_pow2_below(60, 149);
    vstd::arithmetic::power2::lemma2_to64_rest();
    lemma_from_nat_value(d);
    let divisor = Float32::of(Value::from_nat(d));
    lemma_quotient_value(sigma, divisor);
    assert(d * u > 0) by (nonlinear_arith)
        requires
            d > 0,
            u > 0,
    ;
    rounding::lemma_nearest_magnitude_scale(n, d, u);
    assert(u * n == n * u && u * d == d * u) by (nonlinear_arith);
    let w = rounding::nearest_magnitude(n, d);
    // Not above the number itself.
    assert(n <= d * n) by (nonlinear_arith)
        requires
            d >= 1,
    ;
    rounding::lemma_nearest_magnitude_monotonic(n, d * n, d);
    rounding::lemma_nearest_magnitude_scale(n, 1, d);
    assert(d * 1 == d);
    crate::float::lemma_view_is_rounded(sigma);
    crate::float::lemma_magnitude_limit(sigma);
    // Not below one.
    assert(pow2(149) * d <= n) by (nonlinear_arith)
        requires
            d > 1 ==> 8 * (d * u) <= n,
            u <= n,
            d >= 1,
            u == pow2(149),
    ;
    rounding::lemma_nearest_magnitude_lower(n, d, 149);
    rounding::lemma_nearest_magnitude_error(n, d);
    assert(blur.sigma()@.over(divisor@) == Value::Finite { negative: false, magnitude: w }) by {
        reveal(Value::over);
    }
}

/// The number that a word encodes.
pub open spec fn number(word: u32) -> Float32 {
    Float32 { bits: word }
}

/// Whether a number is one divided by `n`, off by at most two to the power -24 of
/// it.
pub open spec fn is_share(x: Float32, n: u32) -> bool {
    x@ is Finite && -one() <= 0x100_0000 * (x@.units() * n - one()) <= one()
}

proof fn lemma_share(n: u32)
    requires
        0 < n <= 0x100_0000,
    ensures
        is_share(
            (Float32 { bits: 0x3f80_0000 }).quotient(Float32::of(Value::from_nat(n as nat))),
            n,
        ),
{
    let u = one();
    lemma_one();
    lemma_pow2_pos(149);
    lemma_from_nat_value(n as nat);
    let divisor = Float32::of(Value::from_nat(n as nat));
    let unit = Float32 { bits: 0x3f80_0000 };
    lemma_quotient_value(unit, divisor);
    let d = n as nat * u;
    assert(d > 0) by (nonlinear_arith)
        requires
            d == n as nat * u,
            n > 0,
            u > 0,
    ;
    let top = u * u;
    let w = rounding::nearest_magnitude(top, d);
    rounding::lemma_nearest_magnitude_error(top, d);
    assert(top <= pow2(149) * d) by (nonlinear_arith)
        requires
            top == u * u,
            d == n as nat * u,
            n >= 1,
            u == pow2(149),
    ;
    rounding::lemma_nearest_magnitude_upper(top, d, 149);
    vstd::arithmetic::power2::lemma2_to64();
    lemma_pow2_add(1, 149);
    lemma_pow2_below(150, 277);
    lemma_pow2_below(60, 149);
    vstd::arithmetic::power2::lemma2_to64_rest();
    assert(unit@.over(divisor@) == Value::Finite { negative: false, magnitude: w }) by {
        reveal(Value::over);
        assert(1 * one() == one());
    }
    let off = w * n - u;
    assert(w * d - top == off * u) by (nonlinear_arith)
        requires
            d == n as nat * u,
            top == u * u,
            off == w * n - u,
    ;
    assert(-u <= 0x100_0000 * off <= u) by (nonlinear_arith)
        requires
            -d <= 2 * (off * u) <= d || -top <= 0x100_0000 * (off * u) <= top,
            d == n as nat * u,
            top == u * u,
            n <= 0x100_0000,
            u >= 0x1000_0000_0000_0000,
    ;
}

/// The textures of a blur, whatever ones were at hand: they hold texels of as many
/// pixels as the deviation asks for, and no more texels than hold all pixels.
pub proof fn law_blur_textures(
    blur: BackdropBlur,
    current: Option<BackdropScratch>,
    drawable_width: u32,
    drawable_height: u32,
    samples: Seq<Float32>,
)
    requires
        blur.on_screen(drawable_width, drawable_height),
        current is Some ==> current->0.valid(),
    ensures
        ({
            let s = blur.steps(current, drawable_width, drawable_height, samples).scratch;
            let pixels = s.downsample as int;
            &&& pixels == blur.downsample() && 1 <= pixels <= 4
            &&& 0 < s.width <= drawable_width && 0 < s.height <= drawable_height
            &&& (s.blur_width - 1) * pixels < s.width <= s.blur_width * pixels
            &&& (s.blur_height - 1) * pixels < s.height <= s.blur_height * pixels
        }),
{
    let s = blur.steps(current, drawable_width, drawable_height, samples);
    law_blur_stays_inside(blur, current, drawable_width, drawable_height, samples);
    assert(1 <= blur.downsample() <= 4) by {
        reveal(BackdropBlur::downsample);
    }
    let (x0, y0, x1, y1) = blur.padded_region(drawable_width, drawable_height);
    assert(0 <= x0 && 0 <= y0 && x1 <= drawable_width && y1 <= drawable_height) by {
        reveal(BackdropBlur::padded_region);
    }
    law_scratch_is_kept_or_made(
        current,
        (x1 - x0) as u32,
        (y1 - y0) as u32,
        blur.downsample(),
        drawable_width,
        drawable_height,
    );
    lemma_texels(s.scratch.width, s.scratch.downsample);
    lemma_texels(s.scratch.height, s.scratch.downsample);
}

/// The horizontal pass takes its samples as many pixels of the copy apart as a
/// texel of its product spans, and the vertical one a texel apart, each along its
/// own axis.
pub proof fn law_strides_span_texels(
    blur: BackdropBlur,
    current: Option<BackdropScratch>,
    drawable_width: u32,
    drawable_height: u32,
    samples: Seq<Float32>,
)
    requires
        blur.on_screen(drawable_width, drawable_height),
        current is Some ==> current->0.valid(),
    ensures
        ({
            let s = blur.steps(current, drawable_width, drawable_height, samples);
            let h = s.horizontal_words;
            let v = s.vertical_words;
            &&& is_whole(number(h[0]), 1) && is_whole(number(h[1]), 0)
            &&& is_whole(number(v[0]), 0) && is_whole(number(v[1]), 1)
            &&& is_whole(number(h[3]), s.scratch.downsample as int)
            &&& is_whole(number(v[3]), 1)
        }),
{
    let s = blur.steps(current, drawable_width, drawable_height, samples);
    law_blur_textures(blur, current, drawable_width, drawable_height, samples);
    lemma_one();
    lemma_from_nat_value(s.scratch.downsample as nat);
    assert(s.horizontal_words[3] == Float32::of(
        Value::from_nat(s.scratch.downsample as nat),
    ).bits && s.horizontal_words[0] == 0x3f80_0000 && s.horizontal_words[1] == 0) by {
        reveal(pass_words);
    }
    assert(s.vertical_words[3] == 0x3f80_0000 && s.vertical_words[0] == 0 && s.vertical_words[1]
        == 0x3f80_0000) by {
        reveal(pass_words);
    }
}

/// Both passes have the same deviation, in texels: times the pixels that samples
/// are apart in the horizontal pass, it is the deviation in pixels that was asked
/// for, off by at most two to the power -24 of it. Both have the same weights.
pub proof fn law_passes_blur_alike(
    blur: BackdropBlur,
    current: Option<BackdropScratch>,
    drawable_width: u32,
    drawable_height: u32,
    samples: Seq<Float32>,
)
    requires
        blur.on_screen(drawable_width, drawable_height),
        current is Some ==> current->0.valid(),
        blur.blur_radius.0@ is Finite,
    ensures
        ({
            let s = blur.steps(current, drawable_width, drawable_height, samples);
            let h = s.horizontal_words;
            let v = s.vertical_words;
            let off = number(h[2])@.units() * s.scratch.downsample - deviation(blur);
            &&& h.len() == 140 && v.len() == 140
            &&& h[2] == v[2] && number(h[2])@ is Finite
            &&& -deviation(blur) <= 0x100_0000 * off <= deviation(blur)
            &&& h.subrange(8, 140) == v.subrange(8, 140)
        }),
{
    let s = blur.steps(current, drawable_width, drawable_height, samples);
    law_blur_textures(blur, current, drawable_width, drawable_height, samples);
    law_texel_deviation(blur);
    let sigma = blur.texel_sigma();
    assert(s.horizontal_words[2] == sigma.bits && s.vertical_words[2] == sigma.bits) by {
        reveal(pass_words);
    }
    assert(number(sigma.bits) == sigma);
    reveal(pass_words);
    assert(s.horizontal_words.subrange(8, 140) =~= s.vertical_words.subrange(8, 140));
}

/// Each pass knows how large a texel of the texture is that it reads: the copy of
/// the frame, or the product of the other pass. Padding is zero.
pub proof fn law_texel_sizes(
    blur: BackdropBlur,
    current: Option<BackdropScratch>,
    drawable_width: u32,
    drawable_height: u32,
    samples: Seq<Float32>,
)
    requires
        blur.on_screen(drawable_width, drawable_height),
        current is Some ==> current->0.valid(),
        drawable_width <= 0x100_0000,
        drawable_height <= 0x100_0000,
    ensures
        ({
            let s = blur.steps(current, drawable_width, drawable_height, samples);
            let h = s.horizontal_words;
            let v = s.vertical_words;
            &&& is_share(number(h[4]), s.scratch.width)
            &&& is_share(number(h[5]), s.scratch.height)
            &&& is_share(number(v[4]), s.scratch.blur_width)
            &&& is_share(number(v[5]), s.scratch.blur_height)
            &&& h[6] == 0 && h[7] == 0 && v[6] == 0 && v[7] == 0
        }),
{
    let s = blur.steps(current, drawable_width, drawable_height, samples);
    law_blur_textures(blur, current, drawable_width, drawable_height, samples);
    lemma_side(s.scratch.blur_width, s.scratch.width, s.scratch.downsample);
    lemma_side(s.scratch.blur_height, s.scratch.height, s.scratch.downsample);
    lemma_share(s.scratch.width);
    lemma_share(s.scratch.height);
    lemma_share(s.scratch.blur_width);
    lemma_share(s.scratch.blur_height);
    let sigma = blur.texel_sigma();
    let stride = Float32::of(Value::from_nat(blur.downsample() as nat));
    let unit = Float32 { bits: 0x3f80_0000 };
    lemma_pass_words(true, sigma, stride, s.scratch.width, s.scratch.height, samples);
    lemma_pass_words(
        false,
        sigma,
        unit,
        s.scratch.blur_width,
        s.scratch.blur_height,
        samples,
    );
}

/// The composite knows the blur, its corners and its clip, and which part of the
/// frame was copied.
pub proof fn law_composite_parameters(
    blur: BackdropBlur,
    current: Option<BackdropScratch>,
    drawable_width: u32,
    drawable_height: u32,
    samples: Seq<Float32>,
)
    requires
        blur.on_screen(drawable_width, drawable_height),
        current is Some ==> current->0.valid(),
        drawable_width <= 0x100_0000,
        drawable_height <= 0x100_0000,
    ensures
        ({
            let s = blur.steps(current, drawable_width, drawable_height, samples);
            let c = s.composite_words;
            &&& c.len() == 16
            &&& c[0] == blur.bounds.origin.x.0.bits && c[1] == blur.bounds.origin.y.0.bits
            &&& c[2] == blur.bounds.size.width.0.bits && c[3] == blur.bounds.size.height.0.bits
            &&& c[4] == blur.corner_radii.top_left.0.bits
            &&& c[5] == blur.corner_radii.top_right.0.bits
            &&& c[6] == blur.corner_radii.bottom_right.0.bits
            &&& c[7] == blur.corner_radii.bottom_left.0.bits
            &&& c[8] == blur.content_mask.bounds.origin.x.0.bits
            &&& c[9] == blur.content_mask.bounds.origin.y.0.bits
            &&& c[10] == blur.content_mask.bounds.size.width.0.bits
            &&& c[11] == blur.content_mask.bounds.size.height.0.bits
            &&& is_whole(number(c[12]), s.copy_x) && is_whole(number(c[13]), s.copy_y)
            &&& is_whole(number(c[14]), s.scratch.width as int)
            &&& is_whole(number(c[15]), s.scratch.height as int)
        }),
{
    let s = blur.steps(current, drawable_width, drawable_height, samples);
    law_blur_stays_inside(blur, current, drawable_width, drawable_height, samples);
    lemma_from_nat_value(s.copy_x as nat);
    lemma_from_nat_value(s.copy_y as nat);
    lemma_from_nat_value(s.scratch.width as nat);
    lemma_from_nat_value(s.scratch.height as nat);
    lemma_composite_words(blur, s.copy_x, s.copy_y, s.scratch);
}

proof fn lemma_pass_words(
    horizontal: bool,
    sigma: Float32,
    stride: Float32,
    width: u32,
    height: u32,
    samples: Seq<Float32>,
)
    ensures
        ({
            let words = pass_words(horizontal, sigma, stride, width, height, samples);
            let unit = Float32 { bits: 0x3f80_0000 };
            &&& words.len() == 140
            &&& horizontal ==> words[0] == unit.bits && words[1] == 0
            &&& !horizontal ==> words[0] == 0 && words[1] == unit.bits
            &&& number(words[2]) == sigma
            &&& number(words[3]) == stride
            &&& number(words[4]) == unit.quotient(Float32::of(Value::from_nat(width as nat)))
            &&& number(words[5]) == unit.quotient(Float32::of(Value::from_nat(height as nat)))
            &&& words[6] == 0 && words[7] == 0
            &&& words.subrange(8, 140) == kernel_words(sigma, samples)
        }),
{
    reveal(pass_words);
    assert(pass_words(horizontal, sigma, stride, width, height, samples).subrange(8, 140)
        =~= kernel_words(sigma, samples));
}

proof fn lemma_composite_words(blur: BackdropBlur, copy_x: int, copy_y: int, s: BackdropScratch)
    ensures
        ({
            let c = composite_words(blur, copy_x, copy_y, s);
            &&& c.len() == 16
            &&& c[0] == blur.bounds.origin.x.0.bits && c[1] == blur.bounds.origin.y.0.bits
            &&& c[2] == blur.bounds.size.width.0.bits && c[3] == blur.bounds.size.height.0.bits
            &&& c[4] == blur.corner_radii.top_left.0.bits
            &&& c[5] == blur.corner_radii.top_right.0.bits
            &&& c[6] == blur.corner_radii.bottom_right.0.bits
            &&& c[7] == blur.corner_radii.bottom_left.0.bits
            &&& c[8] == blur.content_mask.bounds.origin.x.0.bits
            &&& c[9] == blur.content_mask.bounds.origin.y.0.bits
            &&& c[10] == blur.content_mask.bounds.size.width.0.bits
            &&& c[11] == blur.content_mask.bounds.size.height.0.bits
            &&& number(c[12]) == Float32::of(Value::from_nat(copy_x as nat))
            &&& number(c[13]) == Float32::of(Value::from_nat(copy_y as nat))
            &&& number(c[14]) == Float32::of(Value::from_nat(s.width as nat))
            &&& number(c[15]) == Float32::of(Value::from_nat(s.height as nat))
        }),
{
    reveal(composite_words);
}

proof fn lemma_side(texels: u32, pixels: u32, downsample: u32)
    requires
        0 < downsample,
        0 < pixels <= 0x100_0000,
        (texels - 1) * downsample < pixels <= texels * downsample,
    ensures
        0 < texels <= 0x100_0000,
{
    assert(0 < texels <= 0x100_0000) by (nonlinear_arith)
        requires
            0 < downsample,
            0 < pixels <= 0x100_0000,
            (texels - 1) * downsample < pixels <= texels * downsample,
    ;
}

/// Both passes of a blur weigh their samples alike: with weights that add up to
/// one, off by at most two to the power -24 for each texel in reach and once more,
/// that do not grow with the distance, and that are zero beyond three deviations.
pub proof fn law_pass_weights(
    blur: BackdropBlur,
    current: Option<BackdropScratch>,
    drawable_width: u32,
    drawable_height: u32,
    samples: Seq<Float32>,
)
    requires
        ({
            let radius = kernel_radius(blur.texel_sigma());
            normalizable(samples, radius) && falling(sample_units(samples, radius))
        }),
    ensures
        ({
            let s = blur.steps(current, drawable_width, drawable_height, samples);
            let radius = kernel_radius(blur.texel_sigma());
            let weights = Seq::new(
                (radius + 1) as nat,
                |k: int| number(s.horizontal_words[8 + k])@.units(),
            );
            let off = both_sides(weights) - one();
            let bound = (2 * radius + 2) * one();
            &&& -bound <= 0x100_0000 * off <= bound
            &&& falling(weights)
            &&& forall|k: int| 0 <= k <= radius ==> 0 <= #[trigger] weights[k] <= one()
            &&& forall|k: int| radius < k < 132 ==> #[trigger] s.horizontal_words[8 + k] == 0
        }),
{
    reveal(pass_words);
    let s = blur.steps(current, drawable_width, drawable_height, samples);
    let sigma = blur.texel_sigma();
    let radius = kernel_radius(sigma);
    law_weights_are_normalized(samples, radius);
    let kernel = kernel_words(sigma, samples);
    assert forall|k: int| 0 <= k < 132 implies #[trigger] s.horizontal_words[8 + k]
        == kernel[k] by {}
    let weights = Seq::new(
        (radius + 1) as nat,
        |k: int| number(s.horizontal_words[8 + k])@.units(),
    );
    assert forall|k: int| 0 <= k <= radius implies #[trigger] weights[k] == weight_units(
        samples,
        radius,
    )[k] by {
        assert(s.horizontal_words[8 + k] == kernel[k]);
        assert(number(kernel[k]) == crate::blur_kernel::weight(samples, radius, k));
    }
    assert(weights =~= weight_units(samples, radius));
    assert forall|k: int| radius < k < 132 implies #[trigger] s.horizontal_words[8 + k] == 0 by {
        assert(s.horizontal_words[8 + k] == kernel[k]);
        assert(crate::blur_kernel::weight(samples, radius, k) == (Float32 { bits: 0 }));
    }
}

/// What can be seen of a blur: the part of its bounds in its clip rectangle.
pub open spec fn in_sight(blur: BackdropBlur) -> Bounds<ScaledPixels> {
    blur.bounds.common_part(blur.content_mask.bounds)
}

/// Whether a position and a length are finite and of moderate size.
pub open spec fn moderate_extent(position: Float32, length: Float32) -> bool {
    &&& position@ is Finite && length@ is Finite
    &&& -0x10_0000 * one() <= position@.units() <= 0x10_0000 * one()
    &&& 0 <= length@.units() <= 0x10_0000 * one()
}

/// Whether a blur and its deviation are of moderate size.
pub open spec fn moderate_blur(blur: BackdropBlur) -> bool {
    let v = in_sight(blur);
    &&& blur.blur_radius.0@ is Finite
    &&& blur.blur_radius.0@.units() <= 0x10_0000 * one()
    &&& moderate_extent(v.origin.x.0, v.size.width.0)
    &&& moderate_extent(v.origin.y.0, v.size.height.0)
}

/// The padded region along one axis.
proof fn lemma_padded(blur: BackdropBlur, position: Float32, length: Float32, drawable: u32)
    requires
        blur.blur_radius.0@ is Finite,
        blur.blur_radius.0@.units() <= 0x10_0000 * one(),
        moderate_extent(position, length),
    ensures
        ({
            let near = near_edge(position@, blur.padding());
            let far = far_edge(position@, length@, blur.padding(), drawable);
            let start = position@.units();
            let end = start + length@.units();
            let reach = 3 * deviation(blur);
            &&& near >= 0 && far <= drawable
            &&& near == 0 || near * one() <= start - reach
            &&& far == drawable || far * one() >= end + reach
            &&& near * one() >= start - reach - 6 * one()
            &&& far * one() <= end + reach + 6 * one()
        }),
{
    lemma_deviation(blur);
    lemma_pow2_pos(149);
    law_padding_holds_reach(blur, position@, length@, drawable);
    law_reach_is_three_deviations(blur);
}

/// A blur is worked on if anything of it is in sight of the frame, and is not if
/// it is farther away than three deviations and six pixels.
pub proof fn law_blurs_in_sight(blur: BackdropBlur, drawable_width: u32, drawable_height: u32)
    requires
        moderate_blur(blur),
        drawable_width > 0,
        drawable_height > 0,
    ensures
        ({
            let v = in_sight(blur);
            let u = one() as int;
            let left = v.origin.x.0@.units();
            let right = left + v.size.width.0@.units();
            let top = v.origin.y.0@.units();
            let bottom = top + v.size.height.0@.units();
            let far = 3 * deviation(blur) + 6 * u;
            &&& left < drawable_width * u && right > 0 && top < drawable_height * u && bottom > 0
                ==> blur.on_screen(drawable_width, drawable_height)
            &&& left >= drawable_width * u + far || right + far <= 0 || top >= drawable_height * u
                + far || bottom + far <= 0 ==> !blur.on_screen(drawable_width, drawable_height)
        }),
{
    let v = in_sight(blur);
    assert(v == blur.visible()) by {
        reveal(BackdropBlur::visible);
    }
    reveal(BackdropBlur::padded_region);
    lemma_padded(blur, v.origin.x.0, v.size.width.0, drawable_width);
    lemma_padded(blur, v.origin.y.0, v.size.height.0, drawable_height);
    lemma_deviation(blur);
    let (x0, y0, x1, y1) = blur.padded_region(drawable_width, drawable_height);
    lemma_pixel_order(x0, x1);
    lemma_pixel_order(y0, y1);
    lemma_pixel_order(x0, drawable_width as int);
    lemma_pixel_order(y0, drawable_height as int);
    lemma_pixel_order(0, x1);
    lemma_pixel_order(0, y1);
    lemma_pixel_order(0, drawable_width as int);
    lemma_pixel_order(0, drawable_height as int);
    assert(0 * one() == 0);
}

proof fn lemma_pixel_order(a: int, b: int)
    ensures
        (a * one() < b * one()) == (a < b),
{
    lemma_pow2_pos(149);
    let u = one() as int;
    assert((a * u < b * u) == (a < b)) by (nonlinear_arith)
        requires
            u > 0,
    ;
}

/// The copy of the frame holds everything within three deviations of what is in
/// sight of a blur, as far as the frame goes, and the frame holds the copy.
pub proof fn law_copy_holds_reach(
    blur: BackdropBlur,
    current: Option<BackdropScratch>,
    drawable_width: u32,
    drawable_height: u32,
    samples: Seq<Float32>,
)
    requires
        blur.on_screen(drawable_width, drawable_height),
        current is Some ==> current->0.valid(),
        moderate_blur(blur),
    ensures
        ({
            let s = blur.steps(current, drawable_width, drawable_height, samples);
            let v = in_sight(blur);
            let u = one() as int;
            let reach = 3 * deviation(blur);
            let left = v.origin.x.0@.units();
            let right = left + v.size.width.0@.units();
            let top = v.origin.y.0@.units();
            let bottom = top + v.size.height.0@.units();
            &&& 0 <= s.copy_x && s.copy_x + s.scratch.width <= drawable_width
            &&& 0 <= s.copy_y && s.copy_y + s.scratch.height <= drawable_height
            &&& s.copy_x == 0 || s.copy_x * u <= left - reach
            &&& s.copy_y == 0 || s.copy_y * u <= top - reach
            &&& s.copy_x + s.scratch.width == drawable_width || (s.copy_x + s.scratch.width) * u
                >= right + reach
            &&& s.copy_y + s.scratch.height == drawable_height || (s.copy_y + s.scratch.height) * u
                >= bottom + reach
        }),
{
    let s = blur.steps(current, drawable_width, drawable_height, samples);
    let v = in_sight(blur);
    assert(v == blur.visible()) by {
        reveal(BackdropBlur::visible);
    }
    law_blur_stays_inside(blur, current, drawable_width, drawable_height, samples);
    assert({
        let (x0, y0, x1, y1) = blur.padded_region(drawable_width, drawable_height);
        &&& x0 == near_edge(v.origin.x.0@, blur.padding())
        &&& y0 == near_edge(v.origin.y.0@, blur.padding())
        &&& x1 == far_edge(v.origin.x.0@, v.size.width.0@, blur.padding(), drawable_width)
        &&& y1 == far_edge(v.origin.y.0@, v.size.height.0@, blur.padding(), drawable_height)
    }) by {
        reveal(BackdropBlur::padded_region);
    }
    lemma_padded(blur, v.origin.x.0, v.size.width.0, drawable_width);
    lemma_padded(blur, v.origin.y.0, v.size.height.0, drawable_height);
    let (x0, y0, x1, y1) = blur.padded_region(drawable_width, drawable_height);
    lemma_pixel_order(x0, s.copy_x);
    lemma_pixel_order(y0, s.copy_y);
    lemma_pixel_order(s.copy_x + s.scratch.width, x1);
    lemma_pixel_order(s.copy_y + s.scratch.height, y1);
}

/// The kernel of a blur reaches as far as the passes leave room for.
proof fn lemma_same_reach(sigma: Float32)
    requires
        sigma@ is Finite,
        sigma@.units() >= one(),
    ensures
        vertical_reach(sigma) == kernel_radius(sigma),
{
    lemma_one();
    assert(kernel_sigma(sigma) == sigma);
    let three = Value::whole(false, 3);
    assert(three.times(sigma@) == sigma@.times(three)) by {
        reveal(Value::times);
        let a = sigma@->Finite_magnitude;
        let b = three->Finite_magnitude;
        assert(a * b == b * a) by (nonlinear_arith);
    }
}

/// Whether a texel is in a rectangle given by its corner and size.
pub open spec fn holds(rectangle: Seq<u32>, x: int, y: int) -> bool {
    &&& rectangle[0] <= x < rectangle[0] + rectangle[2]
    &&& rectangle[1] <= y < rectangle[1] + rectangle[3]
}

/// The rectangles that the passes of a blur draw, by their edges.
proof fn lemma_rectangles(
    blur: BackdropBlur,
    current: Option<BackdropScratch>,
    drawable_width: u32,
    drawable_height: u32,
    samples: Seq<Float32>,
)
    ensures
        ({
            let s = blur.steps(current, drawable_width, drawable_height, samples);
            let v = in_sight(blur);
            let visible: [Float32; 4] = [
                v.origin.x.0,
                v.origin.y.0,
                v.size.width.0,
                v.size.height.0,
            ];
            let source: [u32; 4] = [
                s.copy_x as u32,
                s.copy_y as u32,
                s.scratch.width,
                s.scratch.height,
            ];
            let output: [u32; 2] = [s.scratch.blur_width, s.scratch.blur_height];
            let h = s.horizontal_region;
            let r = s.vertical_region;
            let hx = horizontal_extent(visible, source, output, blur.texel_sigma(), 0);
            let hy = horizontal_extent(visible, source, output, blur.texel_sigma(), 1);
            let vx = vertical_extent(visible, source, output, 0);
            let vy = vertical_extent(visible, source, output, 1);
            &&& h.len() == 4 && r.len() == 4
            &&& h[0] == hx.0 && h[0] + h[2] == hx.1
            &&& h[1] == hy.0 && h[1] + h[3] == hy.1
            &&& r[0] == vx.0 && r[0] + r[2] == vx.1
            &&& r[1] == vy.0 && r[1] + r[3] == vy.1
            &&& 0 <= hx.0 <= vx.0 <= vx.1 <= hx.1 <= s.scratch.blur_width
            &&& 0 <= hy.0 <= vy.0 <= vy.1 <= hy.1 <= s.scratch.blur_height
        }),
{
    reveal(BackdropBlur::visible);
    reveal(horizontal_rectangle);
    reveal(vertical_rectangle);
    let s = blur.steps(current, drawable_width, drawable_height, samples);
    let v = in_sight(blur);
    let visible: [Float32; 4] = [v.origin.x.0, v.origin.y.0, v.size.width.0, v.size.height.0];
    let source: [u32; 4] = [s.copy_x as u32, s.copy_y as u32, s.scratch.width, s.scratch.height];
    let output: [u32; 2] = [s.scratch.blur_width, s.scratch.blur_height];
    law_regions_are_nested(visible, source, output, blur.texel_sigma(), 0);
    law_regions_are_nested(visible, source, output, blur.texel_sigma(), 1);
}

/// The vertical pass finds everything that it reads: for each texel that it
/// draws, all texels of the same column within the reach of the kernel, clamped
/// to the texture, were drawn by the horizontal pass. Both stay within their
/// textures.
pub proof fn law_vertical_pass_reads_what_is_drawn(
    blur: BackdropBlur,
    current: Option<BackdropScratch>,
    drawable_width: u32,
    drawable_height: u32,
    samples: Seq<Float32>,
    x: int,
    y: int,
    offset: int,
)
    requires
        blur.blur_radius.0@ is Finite,
        holds(
            blur.steps(current, drawable_width, drawable_height, samples).vertical_region,
            x,
            y,
        ),
        -kernel_radius(blur.texel_sigma()) <= offset <= kernel_radius(blur.texel_sigma()),
    ensures
        ({
            let s = blur.steps(current, drawable_width, drawable_height, samples);
            let last = s.scratch.blur_height - 1;
            let read = if y + offset < 0 {
                0
            } else if y + offset > last {
                last
            } else {
                y + offset
            };
            let h = s.horizontal_region;
            &&& holds(h, x, read)
            &&& h[0] + h[2] <= s.scratch.blur_width && h[1] + h[3] <= s.scratch.blur_height
        }),
{
    let s = blur.steps(current, drawable_width, drawable_height, samples);
    lemma_rectangles(blur, current, drawable_width, drawable_height, samples);
    law_texel_deviation(blur);
    lemma_same_reach(blur.texel_sigma());
    let v = in_sight(blur);
    let visible: [Float32; 4] = [v.origin.x.0, v.origin.y.0, v.size.width.0, v.size.height.0];
    let source: [u32; 4] = [s.copy_x as u32, s.copy_y as u32, s.scratch.width, s.scratch.height];
    let output: [u32; 2] = [s.scratch.blur_width, s.scratch.blur_height];
    let sigma = blur.texel_sigma();
    law_regions_cover_vertical_taps(visible, source, output, sigma, 1, y, offset);
}

/// The composite finds everything that it reads: at each point that is in sight,
/// in the copy and within [`COVERAGE_LIMIT`], the two texels along each axis that
/// are read, clamped to the texture, were drawn by the vertical pass.
pub proof fn law_composite_reads_what_is_drawn(
    blur: BackdropBlur,
    current: Option<BackdropScratch>,
    drawable_width: u32,
    drawable_height: u32,
    samples: Seq<Float32>,
    px: int,
    py: int,
)
    requires
        blur.on_screen(drawable_width, drawable_height),
        current is Some ==> current->0.valid(),
        moderate_blur(blur),
        drawable_width <= COVERAGE_LIMIT,
        drawable_height <= COVERAGE_LIMIT,
        ({
            let v = in_sight(blur);
            let s = blur.steps(current, drawable_width, drawable_height, samples);
            let limit = COVERAGE_LIMIT * one();
            &&& -limit <= v.origin.x.0@.units() <= limit && v.size.width.0@.units() <= limit
            &&& -limit <= v.origin.y.0@.units() <= limit && v.size.height.0@.units() <= limit
            &&& v.origin.x.0@.units() <= px <= v.origin.x.0@.units() + v.size.width.0@.units()
            &&& v.origin.y.0@.units() <= py <= v.origin.y.0@.units() + v.size.height.0@.units()
            &&& s.copy_x * one() <= px < (s.copy_x + s.scratch.width) * one()
            &&& s.copy_y * one() <= py < (s.copy_y + s.scratch.height) * one()
        }),
    ensures
        ({
            let s = blur.steps(current, drawable_width, drawable_height, samples);
            let r = s.vertical_region;
            let tx = sampled_texel(px, s.copy_x as u32, s.scratch.width, s.scratch.blur_width);
            let ty = sampled_texel(py, s.copy_y as u32, s.scratch.height, s.scratch.blur_height);
            let right = s.scratch.blur_width - 1;
            let bottom = s.scratch.blur_height - 1;
            &&& holds(r, between(tx, 0, right), between(ty, 0, bottom))
            &&& holds(r, between(tx + 1, 0, right), between(ty + 1, 0, bottom))
        }),
{
    let s = blur.steps(current, drawable_width, drawable_height, samples);
    lemma_rectangles(blur, current, drawable_width, drawable_height, samples);
    law_blur_stays_inside(blur, current, drawable_width, drawable_height, samples);
    law_blur_textures(blur, current, drawable_width, drawable_height, samples);
    let v = in_sight(blur);
    lemma_fewer_texels(s.scratch.blur_width, s.scratch.width, s.scratch.downsample);
    lemma_fewer_texels(s.scratch.blur_height, s.scratch.height, s.scratch.downsample);
    law_regions_cover_samples(
        v.origin.x.0@,
        v.size.width.0@,
        s.copy_x as u32,
        s.scratch.width,
        s.scratch.blur_width,
        px,
    );
    law_regions_cover_samples(
        v.origin.y.0@,
        v.size.height.0@,
        s.copy_y as u32,
        s.scratch.height,
        s.scratch.blur_height,
        py,
    );
}

proof fn lemma_fewer_texels(texels: u32, pixels: u32, downsample: u32)
    requires
        1 <= downsample,
        0 < pixels,
        (texels - 1) * downsample < pixels <= texels * downsample,
    ensures
        0 < texels <= pixels,
{
    assert(0 < texels <= pixels) by (nonlinear_arith)
        requires
            1 <= downsample,
            0 < pixels,
            (texels - 1) * downsample < pixels <= texels * downsample,
    ;
}

/// There is an exponent for each distance that the kernel of a blur reaches, as
/// long as that is at most 128 texels. It is the square of the distance, divided
/// by twice the square of the deviation in texels, and negative: off by at most
/// three times two to the power -24 of that.
pub proof fn law_blur_exponents(blur: BackdropBlur, k: int)
    requires
        blur.blur_radius.0@ is Finite,
        blur.texel_sigma()@.units() <= 0x40 * one(),
    ensures
        ({
            let found = crate::backdrop::blur_exponents(blur);
            let radius = kernel_radius(blur.texel_sigma());
            let s = blur.texel_sigma()@.units();
            let u = one() as int;
            let exact = (k * k) * (u * (u * u));
            let off = -found[k]@.units() * (2 * (s * s)) - exact;
            &&& radius <= 128 ==> found.len() == radius + 1
            &&& radius > 128 ==> found.len() == 0
            &&& 0 <= k < found.len() ==> {
                &&& found[k]@ is Finite && found[k]@.units() <= 0
                &&& -(3 * exact) <= 0x100_0000 * off <= 3 * exact
            }
        }),
{
    law_texel_deviation(blur);
    let sigma = blur.texel_sigma();
    let found = crate::backdrop::blur_exponents(blur);
    if 0 <= k < found.len() {
        crate::kernel_laws::law_exponents(sigma, k as nat);
        lemma_one();
        lemma_pow2_pos(149);
        assert(crate::kernel_laws::kernel_deviation(sigma) == sigma@.units());
    }
}

} // verus!
