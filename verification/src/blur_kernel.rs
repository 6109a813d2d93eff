//! Gaussian weights shared by every pixel of a backdrop blur pass, and the
//! pixels that each pass has to produce.
use crate::float::{one, Float32, Value};
use crate::rounding;
use vstd::arithmetic::power2::lemma_pow2_pos;
use vstd::prelude::*;

verus! {

/// Kernels that reach farther are left to the shader.
pub const MAX_KERNEL_RADIUS: usize = 128;

/// Number of four-component vectors that hold the positive half of a kernel.
pub const KERNEL_VECTORS: usize = 33;

/// The deviation that a kernel is computed for: at least half a texel.
pub open spec fn kernel_sigma(sigma: Float32) -> Float32 {
    sigma.maximum(Float32 { bits: 0x3f00_0000 })
}

/// How many texels a kernel reaches to either side: three deviations.
pub open spec fn kernel_radius(sigma: Float32) -> int {
    kernel_sigma(sigma)@.times(Value::whole(false, 3)).ceiled().saturated(0, u32::MAX as int)
}

/// How many texels a kernel reaches to either side, if that is few enough for
/// precomputed weights.
pub fn precomputed_radius(sigma: Float32) -> (r: Option<usize>)
    ensures
        r == if kernel_radius(sigma) > MAX_KERNEL_RADIUS {
            None
        } else {
            Some(kernel_radius(sigma) as usize)
        },
{
    let sigma = sigma.larger(Float32::from_bits(0x3f00_0000));
    let radius: u32 = sigma.times(Float32::whole(3)).ceiled().to_u32();
    if radius > 128 {
        None
    } else {
        Some(radius as usize)
    }
}

/// The number whose exponential is the weight of a texel at distance `k`,
/// before normalization.
pub open spec fn exponent(sigma: Float32, k: nat) -> Float32 {
    let distance = Float32::of(Value::from_nat(k));
    let s = kernel_sigma(sigma);
    let negated = Float32::of(distance@.negated());
    negated.product(distance).quotient(Float32::of(Value::whole(false, 2)).product(s).product(s))
}

/// The number whose exponential is the weight of a texel at distance `k`,
/// before normalization.
pub fn kernel_exponent(sigma: Float32, k: u32) -> (r: Float32)
    ensures
        r == exponent(sigma, k as nat),
{
    let sigma = sigma.larger(Float32::from_bits(0x3f00_0000));
    let distance = Float32::from_u32(k);
    let negated = distance.negated();
    let two = Float32::whole(2);
    proof {
        crate::float::lemma_encoding(negated, distance@.negated());
        crate::float::lemma_encoding(two, Value::whole(false, 2));
    }
    negated.times(distance).over(two.times(sigma).times(sigma))
}

/// The sum of the first `n` weights of a kernel, from its one end to the other.
pub open spec fn partial_total(samples: Seq<Float32>, radius: int, n: int) -> Float32
    decreases n,
{
    if n <= 0 {
        Float32 { bits: 0 }
    } else {
        let k = n - 1 - radius;
        partial_total(samples, radius, n - 1).sum(samples[if k < 0 { -k } else { k }])
    }
}

/// The normalized weight of a texel at distance `k`.
pub open spec fn weight(samples: Seq<Float32>, radius: int, k: int) -> Float32 {
    let total = partial_total(samples, radius, 2 * radius + 1);
    if k <= radius {
        samples[k].quotient(total)
    } else {
        (Float32 { bits: 0 }).quotient(total)
    }
}

/// The sum of all weights of a kernel.
fn kernel_total(samples: &Vec<Float32>, radius: usize) -> (r: Float32)
    requires
        radius <= MAX_KERNEL_RADIUS,
        samples.len() > radius,
    ensures
        r == partial_total(samples@, radius as int, 2 * radius + 1),
{
    let mut total = Float32::zero();
    let mut n: usize = 0;
    while n < 2 * radius + 1
        invariant
            radius <= MAX_KERNEL_RADIUS,
            samples.len() > radius,
            n <= 2 * radius + 1,
            total == partial_total(samples@, radius as int, n as int),
        decreases 2 * radius + 1 - n,
    {
        let k: usize = if n < radius {
            radius - n
        } else {
            n - radius
        };
        total = total.plus(samples[k]);
        n = n + 1;
    }
    total
}

/// Positive half of the symmetric, normalized kernel. Large radii get no
/// weights: the shader computes those itself, so that a blur is not cut short.
///
/// `samples` holds the exponentials of [`kernel_exponent`] for the distances up
/// to the radius. How close to one the weights add up is stated by
/// [`crate::blur_weights::law_weights_are_normalized`].
pub fn gaussian_weights(sigma: Float32, samples: &Vec<Float32>) -> (weights: [[Float32; 4]; 33])
    requires
        kernel_radius(sigma) <= MAX_KERNEL_RADIUS ==> samples.len() > kernel_radius(sigma),
    ensures
        kernel_radius(sigma) > MAX_KERNEL_RADIUS ==> forall|v: int, c: int|
            0 <= v < 33 && 0 <= c < 4 ==> (#[trigger] weights[v][c]).bits == 0,
        kernel_radius(sigma) <= MAX_KERNEL_RADIUS ==> forall|v: int, c: int|
            0 <= v < 33 && 0 <= c < 4 ==> #[trigger] weights[v][c] == weight(
                samples@,
                kernel_radius(sigma),
                4 * v + c,
            ),
{
    let zero = Float32::zero();
    let row: [Float32; 4] = [zero; 4];
    let mut weights: [[Float32; 4]; 33] = [row; 33];
    let radius: usize = match precomputed_radius(sigma) {
        None => {
            return weights;
        },
        Some(radius) => radius,
    };
    let total = kernel_total(samples, radius);
    let mut v: usize = 0;
    while v < 33
        invariant
            v <= 33,
            radius <= MAX_KERNEL_RADIUS,
            samples.len() > radius,
            zero.bits == 0,
            total == partial_total(samples@, radius as int, 2 * radius + 1),
            forall|u: int, c: int|
                0 <= u < v && 0 <= c < 4 ==> #[trigger] weights[u][c] == weight(
                    samples@,
                    radius as int,
                    4 * u + c,
                ),
        decreases 33 - v,
    {
        let mut row: [Float32; 4] = [zero; 4];
        let mut c: usize = 0;
        while c < 4
            invariant
                v < 33,
                c <= 4,
                radius <= MAX_KERNEL_RADIUS,
                samples.len() > radius,
                zero.bits == 0,
                total == partial_total(samples@, radius as int, 2 * radius + 1),
                forall|d: int|
                    0 <= d < c ==> #[trigger] row[d] == weight(
                        samples@,
                        radius as int,
                        4 * v + d,
                    ),
            decreases 4 - c,
        {
            let k: usize = 4 * v + c;
            row[c] = if k <= radius {
                samples[k].over(total)
            } else {
                zero.over(total)
            };
            c = c + 1;
        }
        weights[v] = row;
        v = v + 1;
    }
    weights
}

/// `n` brought between two bounds.
pub open spec fn between(n: int, low: int, high: int) -> int {
    if n < low {
        low
    } else if n > high {
        high
    } else {
        n
    }
}

/// How many output texels one source pixel spans.
pub open spec fn texel_scale(source_len: u32, output_len: u32) -> Value {
    Value::from_nat(output_len as nat).over(Value::from_nat(source_len as nat))
}

/// Where a position falls among the output texels.
pub open spec fn texel_position(position: Value, source_start: u32, scale: Value) -> Value {
    position.minus(Value::from_nat(source_start as nat)).times(scale)
}

/// The first texel to keep along one axis: one before the texel that holds the
/// start of the visible part.
pub open spec fn region_start(
    visible_start: Value,
    source_start: u32,
    source_len: u32,
    output_len: u32,
) -> int {
    let position = texel_position(
        visible_start,
        source_start,
        texel_scale(source_len, output_len),
    );
    between(
        position.floored().saturated(i64::MIN as int, i64::MAX as int) - 1,
        0,
        output_len as int,
    )
}

/// The texel that the kept ones end before along one axis: one past the texel
/// that holds the end of the visible part.
pub open spec fn region_end(
    visible_start: Value,
    visible_len: Value,
    source_start: u32,
    source_len: u32,
    output_len: u32,
) -> int {
    let position = texel_position(
        visible_start.plus(visible_len),
        source_start,
        texel_scale(source_len, output_len),
    );
    between(
        position.ceiled().saturated(i64::MIN as int, i64::MAX as int) + 1,
        region_start(visible_start, source_start, source_len, output_len),
        output_len as int,
    )
}

/// How far the vertical pass reads beyond a texel.
pub open spec fn vertical_reach(sigma: Float32) -> int {
    Value::whole(false, 3).times(sigma@).ceiled().saturated(0, u32::MAX as int)
}

/// How much of the horizontal pass is kept beyond the vertical one, along one
/// axis.
pub open spec fn halo(axis: int, sigma: Float32) -> int {
    if axis == 0 {
        1
    } else {
        vertical_reach(sigma) + 1
    }
}

/// What the vertical pass keeps along one axis: a start and an end.
pub open spec fn vertical_extent(
    visible: [Float32; 4],
    source: [u32; 4],
    output: [u32; 2],
    axis: int,
) -> (int, int) {
    (
        region_start(visible[axis]@, source[axis], source[axis + 2], output[axis]),
        region_end(
            visible[axis]@,
            visible[axis + 2]@,
            source[axis],
            source[axis + 2],
            output[axis],
        ),
    )
}

/// What the horizontal pass keeps along one axis: a start and an end.
pub open spec fn horizontal_extent(
    visible: [Float32; 4],
    source: [u32; 4],
    output: [u32; 2],
    sigma: Float32,
    axis: int,
) -> (int, int) {
    let (start, end) = vertical_extent(visible, source, output, axis);
    (
        between(start - halo(axis, sigma), 0, output[axis] as int),
        between(end + halo(axis, sigma), 0, output[axis] as int),
    )
}

fn region_axis(
    visible_start: Float32,
    visible_len: Float32,
    source_start: u32,
    source_len: u32,
    output_len: u32,
) -> (r: (u32, u32))
    ensures
        r.0 == region_start(visible_start@, source_start, source_len, output_len),
        r.1 == region_end(visible_start@, visible_len@, source_start, source_len, output_len),
        r.0 <= r.1 <= output_len,
{
    let scale = Float32::from_u32(output_len).over(Float32::from_u32(source_len));
    let origin = Float32::from_u32(source_start);
    let start: i64 = visible_start.minus(origin).times(scale).floored().to_i64();
    let end: i64 = visible_start.plus(visible_len).minus(origin).times(scale).ceiled().to_i64();
    let first: u32 = if start <= 1 {
        0
    } else if start - 1 >= output_len as i64 {
        output_len
    } else {
        (start - 1) as u32
    };
    let last: u32 = if end >= output_len as i64 {
        output_len
    } else if end + 1 <= first as i64 {
        first
    } else {
        (end + 1) as u32
    };
    (first, last)
}

fn widened(start: u32, end: u32, halo: u64, output_len: u32) -> (r: (u32, u32))
    requires
        start <= end <= output_len,
        halo <= 0x1_0000_0000,
    ensures
        r.0 == between(start - halo, 0, output_len as int),
        r.1 == between(end + halo, 0, output_len as int),
        r.0 <= start,
        end <= r.1 <= output_len,
{
    let first: u32 = if start as u64 <= halo {
        0
    } else {
        (start as u64 - halo) as u32
    };
    let last: u32 = if end as u64 + halo >= output_len as u64 {
        output_len
    } else {
        (end as u64 + halo) as u32
    };
    (first, last)
}

/// Output scissor rectangles for the horizontal and vertical passes, each a left
/// and upper edge, a width and a height. Keep a texel halo for bilinear
/// compositing and the vertical kernel's full support. Coordinates stay in the
/// textures that are blurred; only unused fragments are skipped.
pub fn blur_regions(
    visible: [Float32; 4],
    source: [u32; 4],
    output: [u32; 2],
    sigma: Float32,
) -> (r: ([u32; 4], [u32; 4]))
    ensures
        forall|axis: int|
            0 <= axis < 2 ==> {
                &&& #[trigger] r.0[axis] == horizontal_extent(
                    visible,
                    source,
                    output,
                    sigma,
                    axis,
                ).0
                &&& r.0[axis] + r.0[axis + 2] == horizontal_extent(
                    visible,
                    source,
                    output,
                    sigma,
                    axis,
                ).1
            },
        forall|axis: int|
            0 <= axis < 2 ==> {
                &&& #[trigger] r.1[axis] == vertical_extent(visible, source, output, axis).0
                &&& r.1[axis] + r.1[axis + 2] == vertical_extent(visible, source, output, axis).1
            },
{
    let x: (u32, u32) = region_axis(visible[0], visible[2], source[0], source[2], output[0]);
    let y: (u32, u32) = region_axis(visible[1], visible[3], source[1], source[3], output[1]);
    let reach: u32 = Float32::whole(3).times(sigma).ceiled().to_u32();
    let wide_x: (u32, u32) = widened(x.0, x.1, 1, output[0]);
    let wide_y: (u32, u32) = widened(y.0, y.1, reach as u64 + 1, output[1]);
    (
        [wide_x.0, wide_y.0, wide_x.1 - wide_x.0, wide_y.1 - wide_y.0],
        [x.0, y.0, x.1 - x.0, y.1 - y.0],
    )
}

/// The vertical pass stays inside the horizontal one, and both stay inside the
/// textures that they write.
pub proof fn law_regions_are_nested(
    visible: [Float32; 4],
    source: [u32; 4],
    output: [u32; 2],
    sigma: Float32,
    axis: int,
)
    requires
        0 <= axis < 2,
    ensures
        ({
            let (inner, inner_end) = vertical_extent(visible, source, output, axis);
            let (outer, outer_end) = horizontal_extent(visible, source, output, sigma, axis);
            0 <= outer <= inner <= inner_end <= outer_end <= output[axis]
        }),
{
    lemma_saturated_range(Value::whole(false, 3).times(sigma@).ceiled(), 0, u32::MAX as int);
}

proof fn lemma_saturated_range(v: Value, low: int, high: int)
    requires
        low <= 0 <= high,
    ensures
        low <= v.saturated(low, high) <= high,
{
}

/// Every texel that the vertical pass reads, clamped to the texture, was written
/// by the horizontal pass.
pub proof fn law_regions_cover_vertical_taps(
    visible: [Float32; 4],
    source: [u32; 4],
    output: [u32; 2],
    sigma: Float32,
    axis: int,
    pixel: int,
    offset: int,
)
    requires
        0 <= axis < 2,
        vertical_extent(visible, source, output, axis).0 <= pixel < vertical_extent(
            visible,
            source,
            output,
            axis,
        ).1,
        axis == 0 ==> offset == 0,
        axis == 1 ==> -vertical_reach(sigma) <= offset <= vertical_reach(sigma),
    ensures
        ({
            let (start, end) = horizontal_extent(visible, source, output, sigma, axis);
            start <= between(pixel + offset, 0, output[axis] - 1) < end
        }),
{
    law_regions_are_nested(visible, source, output, sigma, axis);
    lemma_saturated_range(Value::whole(false, 3).times(sigma@).ceiled(), 0, u32::MAX as int);
}

/// Moving the source and what is visible of it by the same amount, without any
/// coordinate being rounded, leaves the regions where they are.
pub proof fn law_regions_ignore_translation(
    start: Value,
    len: Value,
    moved_start: Value,
    source_start: u32,
    moved_source_start: u32,
    source_len: u32,
    output_len: u32,
)
    requires
        start is Finite,
        moved_start is Finite,
        start.plus(len) is Finite,
        moved_start.plus(len) is Finite,
        source_start <= 0x100_0000,
        moved_source_start <= 0x100_0000,
        ({
            let moved = (moved_source_start - source_start) * one();
            &&& moved_start.units() == start.units() + moved
            &&& moved_start.plus(len).units() == start.plus(len).units() + moved
        }),
    ensures
        region_start(moved_start, moved_source_start, source_len, output_len) == region_start(
            start,
            source_start,
            source_len,
            output_len,
        ),
        region_end(moved_start, len, moved_source_start, source_len, output_len) == region_end(
            start,
            len,
            source_start,
            source_len,
            output_len,
        ),
{
    let scale = texel_scale(source_len, output_len);
    lemma_moved_position(start, moved_start, source_start, moved_source_start, scale);
    lemma_moved_position(
        start.plus(len),
        moved_start.plus(len),
        source_start,
        moved_source_start,
        scale,
    );
}

proof fn lemma_moved_position(a: Value, moved: Value, s: u32, moved_s: u32, scale: Value)
    requires
        a is Finite,
        moved is Finite,
        s <= 0x100_0000,
        moved_s <= 0x100_0000,
        moved.units() == a.units() + (moved_s - s) * one(),
    ensures
        ({
            let low = i64::MIN as int;
            let high = i64::MAX as int;
            let p = texel_position(a, s, scale);
            let q = texel_position(moved, moved_s, scale);
            &&& q.floored().saturated(low, high) == p.floored().saturated(low, high)
            &&& q.ceiled().saturated(low, high) == p.ceiled().saturated(low, high)
        }),
{
    crate::float::lemma_from_nat_exact(s as nat);
    crate::float::lemma_from_nat_exact(moved_s as nat);
    let u = one() as int;
    assert((moved_s - s) * u == moved_s * u - s * u) by (nonlinear_arith);
    let d = a.minus(Value::from_nat(s as nat));
    let e = moved.minus(Value::from_nat(moved_s as nat));
    if a.units() == s * u {
        assert(d is Finite && d->Finite_magnitude == 0) by {
            reveal(Value::plus);
            lemma_zero_rounds();
        }
        assert(e is Finite && e->Finite_magnitude == 0) by {
            reveal(Value::plus);
            lemma_zero_rounds();
        }
        lemma_zero_position(d, scale);
        lemma_zero_position(e, scale);
    } else {
        assert(d == e) by {
            reveal(Value::plus);
        }
    }
}

proof fn lemma_zero_rounds()
    ensures
        rounding::nearest_magnitude(0, 1) == 0,
        rounding::nearest_magnitude(0, one()) == 0,
{
    lemma_pow2_pos(149);
    rounding::lemma_nearest_integer_parts(0, 1, 0, 0);
    rounding::lemma_nearest_integer_parts(0, one(), 0, 0);
}

proof fn lemma_zero_position(d: Value, scale: Value)
    requires
        d is Finite,
        d->Finite_magnitude == 0,
    ensures
        d.times(scale).floored().saturated(i64::MIN as int, i64::MAX as int) == 0,
        d.times(scale).ceiled().saturated(i64::MIN as int, i64::MAX as int) == 0,
{
    reveal(Value::times);
    lemma_zero_rounds();
    lemma_pow2_pos(149);
    lemma_pow2_pos(277);
    if scale is Finite {
        let p = d.times(scale);
        assert(0 * scale->Finite_magnitude == 0);
        assert(p is Finite && p.units() == 0);
        assert(p.floor_int() == 0 && p.ceil_int() == 0) by {
            vstd::arithmetic::div_mod::lemma_div_basics(one() as int);
        }
        crate::float::lemma_whole_saturated(p, i64::MIN as int, i64::MAX as int);
    }
}

} // verus!
