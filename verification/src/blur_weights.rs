//! Proof that the weights of a blur kernel are normalized, rounding errors
//! included.
use crate::blur_kernel::{partial_total, weight, MAX_KERNEL_RADIUS};
use crate::float::{
    lemma_encoding, lemma_from_nat_exact, lemma_pow2_below, lemma_quotient_value, lemma_sum_value,
    lemma_view_is_rounded, one, Float32, Value,
};
use crate::rounding;
use vstd::arithmetic::power2::{lemma_pow2_pos, lemma_pow2_unfold, pow2};
use vstd::prelude::*;

verus! {

/// The sum of the numbers of a kernel at the distances from one to `n`.
pub open spec fn tail_sum(kernel: Seq<int>, n: int) -> int
    decreases n,
{
    if n <= 0 {
        0
    } else {
        tail_sum(kernel, n - 1) + kernel[n]
    }
}

/// The sum of a whole kernel, given by its middle and one half: the middle counts
/// once, the rest twice.
pub open spec fn both_sides(kernel: Seq<int>) -> int {
    kernel[0] + 2 * tail_sum(kernel, kernel.len() - 1)
}

/// How far texel `i` of those that a kernel covers is from the middle.
pub open spec fn distance(i: int, radius: int) -> int {
    if i < radius {
        radius - i
    } else {
        i - radius
    }
}

/// The sum of the first `n` texels, each multiplied by the kernel.
pub open spec fn convolution(kernel: Seq<int>, texels: Seq<int>, n: int) -> int
    decreases n,
{
    if n <= 0 {
        0
    } else {
        convolution(kernel, texels, n - 1) + texels[n - 1] * kernel[distance(
            n - 1,
            kernel.len() - 1,
        )]
    }
}

/// Whether the numbers of a kernel do not grow with the distance.
pub open spec fn falling(kernel: Seq<int>) -> bool {
    forall|i: int, j: int| 0 <= i <= j < kernel.len() ==> kernel[j] <= kernel[i]
}

/// The weights before normalization, in units.
pub open spec fn sample_units(samples: Seq<Float32>, radius: int) -> Seq<int> {
    Seq::new((radius + 1) as nat, |k: int| samples[k]@.units())
}

/// The normalized weights, in units.
pub open spec fn weight_units(samples: Seq<Float32>, radius: int) -> Seq<int> {
    Seq::new((radius + 1) as nat, |k: int| weight(samples, radius, k)@.units())
}

/// Whether there is something to normalize: finite numbers that are not negative,
/// the middle one positive, and a sum that is finite too.
pub open spec fn normalizable(samples: Seq<Float32>, radius: int) -> bool {
    &&& 0 <= radius <= MAX_KERNEL_RADIUS
    &&& radius < samples.len()
    &&& forall|k: int|
        0 <= k <= radius ==> (#[trigger] samples[k])@ is Finite && samples[k]@.units() >= 0
    &&& samples[0]@.units() > 0
    &&& partial_total(samples, radius, 2 * radius + 1)@ is Finite
}

/// A sum of numbers that are not negative is the exact one rounded, unless that
/// is beyond the largest number.
proof fn lemma_plus_positive(a: Value, b: Value)
    requires
        a is Finite,
        b is Finite,
        a.units() >= 0,
        b.units() >= 0,
    ensures
        ({
            let m = rounding::nearest_magnitude((a.units() + b.units()) as nat, 1);
            if m < pow2(277) {
                a.plus(b) is Finite && a.plus(b).units() == m
            } else {
                a.plus(b) is Infinite
            }
        }),
{
    reveal(Value::plus);
    lemma_pow2_pos(277);
    rounding::lemma_nearest_integer_parts(0, 1, 0, 0);
}

/// What is not finite stays so when something finite is added.
proof fn lemma_plus_finite(a: Value, b: Value)
    requires
        a.plus(b) is Finite,
    ensures
        a is Finite,
        b is Finite,
{
    reveal(Value::plus);
}

/// The partial sums of a kernel are finite if the whole sum is.
proof fn lemma_partial_finite(samples: Seq<Float32>, radius: int, n: int, end: int)
    requires
        0 <= n <= end,
        partial_total(samples, radius, end)@ is Finite,
    ensures
        partial_total(samples, radius, n)@ is Finite,
    decreases end - n,
{
    if n < end {
        let before = partial_total(samples, radius, end - 1);
        let added = samples[distance(end - 1, radius)];
        assert(partial_total(samples, radius, end) == before.sum(added));
        lemma_sum_value(before, added);
        lemma_plus_finite(before@, added@);
        lemma_partial_finite(samples, radius, n, end - 1);
    }
}

/// The exact sum of the first `n` numbers of a kernel, from its one end to the
/// other.
spec fn exact_total(kernel: Seq<int>, n: int) -> int
    decreases n,
{
    if n <= 0 {
        0
    } else {
        exact_total(kernel, n - 1) + kernel[distance(n - 1, kernel.len() - 1)]
    }
}

proof fn lemma_exact_total(kernel: Seq<int>, n: int)
    requires
        0 <= n <= 2 * kernel.len() - 1,
    ensures
        ({
            let radius = kernel.len() - 1;
            exact_total(kernel, n) == if n <= radius {
                tail_sum(kernel, radius) - tail_sum(kernel, radius - n)
            } else {
                tail_sum(kernel, radius) + kernel[0] + tail_sum(kernel, n - 1 - radius)
            }
        }),
    decreases n,
{
    if n > 0 {
        lemma_exact_total(kernel, n - 1);
    }
}

/// One step of a sum: it stays within its bound, and grows.
proof fn lemma_step(p: int, a: int, s: int, q: int, n: int)
    requires
        0 <= n <= 257,
        0 <= a,
        0 <= s,
        -(n * (0x8001 * a)) <= 0x80_0000_0000 * (p - a) <= n * (0x8001 * a),
        -(p + s) <= 0x100_0000 * (q - (p + s)) <= p + s,
    ensures
        -((n + 1) * (0x8001 * (a + s))) <= 0x80_0000_0000 * (q - (a + s)) <= (n + 1) * (0x8001 * (
        a + s)),
{
    let x = 0x8001 * a;
    let y = 0x8001 * s;
    assert(n * x <= 257 * x) by (nonlinear_arith)
        requires
            n <= 257,
            x >= 0,
    ;
    assert((n + 1) * (x + y) == n * x + n * y + x + y) by (nonlinear_arith);
    assert(n * y >= 0) by (nonlinear_arith)
        requires
            n >= 0,
            y >= 0,
    ;
    assert(0x80_0000_0000 * (p - a) <= a * 257 * 0x8001);
    assert(p <= 2 * a);
}

/// The partial sums that single precision gives.
proof fn lemma_partial_total(samples: Seq<Float32>, radius: int, n: int)
    requires
        normalizable(samples, radius),
        1 <= n <= 2 * radius + 1,
    ensures
        ({
            let p = partial_total(samples, radius, n)@;
            let a = exact_total(sample_units(samples, radius), n);
            &&& p is Finite
            &&& a >= 0
            &&& -((n - 1) * (0x8001 * a)) <= 0x80_0000_0000 * (p.units() - a) <= (n - 1) * (0x8001
                * a)
            &&& forall|i: int|
                0 <= i < n ==> 0 <= (#[trigger] samples[distance(i, radius)])@.units() <= p.units()
        }),
    decreases n,
{
    let kernel = sample_units(samples, radius);
    let before = partial_total(samples, radius, n - 1);
    let added = samples[distance(n - 1, radius)];
    let p = partial_total(samples, radius, n);
    let s = added@.units();
    let b = before@.units();
    let a = exact_total(kernel, n - 1);
    lemma_partial_finite(samples, radius, n, 2 * radius + 1);
    lemma_partial_finite(samples, radius, n - 1, 2 * radius + 1);
    assert(p == before.sum(added));
    assert(exact_total(kernel, n) == a + s);
    lemma_sum_value(before, added);
    lemma_view_is_rounded(added);
    if n == 1 {
        assert(before == Float32 { bits: 0 });
        assert(before@ == Value::zero());
        assert(a == 0) by {
            assert(exact_total(kernel, 0) == 0);
        }
        lemma_plus_positive(before@, added@);
        assert(p@.units() == s);
    } else {
        lemma_partial_total(samples, radius, n - 1);
        assert(0 <= samples[distance(0, radius)]@.units() <= b);
        lemma_view_is_rounded(before);
        lemma_plus_positive(before@, added@);
        let q = p@.units();
        rounding::lemma_nearest_magnitude_error((b + s) as nat, 1);
        rounding::lemma_nearest_magnitude_monotonic(b as nat, (b + s) as nat, 1);
        rounding::lemma_nearest_magnitude_monotonic(s as nat, (b + s) as nat, 1);
        assert(-(b + s) <= 0x100_0000 * (q - (b + s)) <= b + s);
        lemma_step(b, a, s, q, n - 2);
        assert forall|i: int| 0 <= i < n implies 0 <= (#[trigger] samples[distance(
            i,
            radius,
        )])@.units() <= q by {
            if i < n - 1 {
                assert(samples[distance(i, radius)]@.units() <= b);
            }
        }
    }
}

/// What a weight is: a sample divided by the sum, rounded.
proof fn lemma_weight(samples: Seq<Float32>, radius: int, k: int)
    requires
        normalizable(samples, radius),
        0 <= k <= radius,
    ensures
        ({
            let total = partial_total(samples, radius, 2 * radius + 1)@;
            let w = weight(samples, radius, k)@;
            let s = samples[k]@.units();
            &&& total is Finite
            &&& total.units() > 0
            &&& 0 <= s <= total.units()
            &&& w is Finite
            &&& 0 <= w.units() <= one()
            &&& w.units() == rounding::nearest_magnitude(s as nat * one(), total.units() as nat)
        }),
{
    let total = partial_total(samples, radius, 2 * radius + 1);
    lemma_partial_total(samples, radius, 2 * radius + 1);
    assert(distance(radius, radius) == 0);
    assert(samples[distance(radius, radius)]@.units() <= total@.units());
    assert(distance(radius + k, radius) == k);
    assert(samples[distance(radius + k, radius)]@.units() <= total@.units());
    lemma_quotient_value(samples[k], total);
    let s = samples[k]@.units() as nat;
    let t = total@.units() as nat;
    assert(s * one() <= pow2(149) * t) by (nonlinear_arith)
        requires
            s <= t,
            one() == pow2(149),
    ;
    rounding::lemma_nearest_magnitude_upper(s * one(), t, 149);
    lemma_pow2_unfold(150);
    lemma_pow2_pos(149);
    lemma_pow2_below(150, 277);
    reveal(Value::over);
    if s == 0 {
        assert(0 * one() == 0);
        rounding::lemma_nearest_integer_parts(0, t, 0, 0);
    }
}

/// How close a weight comes to the exact share that its sample has in the sum.
proof fn lemma_share(s: int, u: int, total: int, exact: int, w: int, radius: int)
    requires
        0 <= radius <= 128,
        0 <= s,
        0 <= u,
        0 < total,
        0 <= exact,
        0 <= w,
        -(2 * radius * (0x8001 * exact)) <= 0x80_0000_0000 * (total - exact) <= 2 * radius * (0x8001
            * exact),
        ({
            let off = w * total - s * u;
            -total <= 2 * off <= total || -(s * u) <= 0x100_0000 * off <= s * u
        }),
    ensures
        ({
            let bound = (4 * radius + 3) * (s * u) + 0x200_0000 * exact;
            -bound <= 0x200_0000 * (w * exact - s * u) <= bound
        }),
{
    let z = s * u;
    let g = w * total;
    let d = exact - total;
    let size = if d < 0 {
        -d
    } else {
        d
    };
    assert(z >= 0) by (nonlinear_arith)
        requires
            z == s * u,
            s >= 0,
            u >= 0,
    ;
    assert(g >= 0) by (nonlinear_arith)
        requires
            g == w * total,
            w >= 0,
            total >= 0,
    ;
    assert(2 * radius * (0x8001 * exact) <= 0x80_0100 * exact) by (nonlinear_arith)
        requires
            radius <= 128,
            exact >= 0,
    ;
    assert(0x400_0000 * size <= (8 * radius + 1) * total) by {
        assert(2 * radius * (0x8001 * exact) == 0x1_0002 * (radius * exact)) by (nonlinear_arith);
        assert(radius * exact == radius * total + radius * d) by (nonlinear_arith)
            requires
                d == exact - total,
        ;
        assert(radius * d <= 128 * size) by (nonlinear_arith)
            requires
                0 <= radius <= 128,
                d <= size,
                size >= 0,
        ;
        assert((8 * radius + 1) * total == 8 * (radius * total) + total) by (nonlinear_arith);
        assert(0 <= radius * total <= 128 * total) by (nonlinear_arith)
            requires
                0 <= radius <= 128,
                total >= 0,
        ;
    }
    assert(w * exact == g + w * d) by (nonlinear_arith)
        requires
            g == w * total,
            d == exact - total,
    ;
    assert(-(w * size) <= w * d <= w * size) by (nonlinear_arith)
        requires
            -size <= d <= size,
            w >= 0,
    ;
    assert(0x400_0000 * (w * size) <= (8 * radius + 1) * g) by (nonlinear_arith)
        requires
            0x400_0000 * size <= (8 * radius + 1) * total,
            g == w * total,
            w >= 0,
    ;
    assert((8 * radius + 1) * g == 8 * (radius * g) + g) by (nonlinear_arith);
    assert((4 * radius + 3) * z == 4 * (radius * z) + 3 * z) by (nonlinear_arith);
    let over = g - z;
    assert(radius * g == radius * z + radius * over) by (nonlinear_arith)
        requires
            over == g - z,
    ;
    assert(0x200_0000 * over <= 2 * z + 0x100_0000 * total);
    assert(0x200_0000 * (radius * over) <= 128 * (2 * z + 0x100_0000 * total))
        by (nonlinear_arith)
        requires
            0x200_0000 * over <= 2 * z + 0x100_0000 * total,
            0 <= radius <= 128,
            z >= 0,
            total >= 0,
    ;
}

/// What a convolution with the weights is off by, as far as the first `n` texels
/// go.
proof fn lemma_convolution(
    samples: Seq<Float32>,
    radius: int,
    texels: Seq<int>,
    largest: int,
    n: int,
)
    requires
        normalizable(samples, radius),
        texels.len() == 2 * radius + 1,
        forall|i: int| 0 <= i < texels.len() ==> 0 <= #[trigger] texels[i] <= largest,
        0 <= n <= 2 * radius + 1,
    ensures
        ({
            let kernel = sample_units(samples, radius);
            let total = both_sides(kernel);
            let off = convolution(weight_units(samples, radius), texels, n) * total - convolution(
                kernel,
                texels,
                n,
            ) * one();
            let bound = (4 * radius + 3) * (largest * (exact_total(kernel, n) * one())) + 0x200_0000
                * (largest * (n * total));
            -bound <= 0x200_0000 * off <= bound
        }),
    decreases n,
{
    let kernel = sample_units(samples, radius);
    let weights = weight_units(samples, radius);
    let total = both_sides(kernel);
    let u = one() as int;
    if n == 0 {
        assert(0 * total == 0 && 0 * u == 0 && largest * 0 == 0 && (4 * radius + 3) * 0 == 0)
            by (nonlinear_arith);
    } else {
        lemma_convolution(samples, radius, texels, largest, n - 1);
        let k = distance(n - 1, radius);
        let s = kernel[k];
        let w = weights[k];
        let x = texels[n - 1];
        lemma_weight(samples, radius, k);
        lemma_partial_total(samples, radius, 2 * radius + 1);
        lemma_exact_total(kernel, 2 * radius + 1);
        let t = partial_total(samples, radius, 2 * radius + 1)@.units();
        lemma_pow2_pos(149);
        rounding::lemma_nearest_magnitude_error(s as nat * one(), t as nat);
        lemma_share(s, u, t, total, w, radius);
        let blurred = convolution(weights, texels, n - 1);
        let e = convolution(kernel, texels, n - 1);
        let a = exact_total(kernel, n - 1);
        let tap = w * total - s * u;
        let allowed = (4 * radius + 3) * (s * u) + 0x200_0000 * total;
        assert((blurred + x * w) * total - (e + x * s) * u == blurred * total - e * u + x * tap)
            by (nonlinear_arith)
            requires
                tap == w * total - s * u,
        ;
        assert(-(largest * allowed) <= 0x200_0000 * (x * tap) <= largest * allowed)
            by (nonlinear_arith)
            requires
                -allowed <= 0x200_0000 * tap <= allowed,
                0 <= x <= largest,
                allowed >= 0,
        ;
        let c = 4 * radius + 3;
        let share = s * u;
        assert((a + s) * u == a * u + share) by (nonlinear_arith)
            requires
                share == s * u,
        ;
        assert(c * (largest * (a * u + share)) == c * (largest * (a * u)) + largest * (c * share))
            by (nonlinear_arith);
        assert(largest * (n * total) == largest * ((n - 1) * total) + largest * total)
            by (nonlinear_arith);
        assert(largest * (c * share + 0x200_0000 * total) == largest * (c * share) + 0x200_0000 * (
        largest * total)) by (nonlinear_arith);
    }
}

/// A pixel blurred with the weights comes close to the exact mean of the texels,
/// weighted by the samples: it is off by at most two to the power -24 of the
/// largest texel for each texel in reach, and once more. Both sides are multiplied
/// by the sum of the samples.
pub proof fn law_weights_blur_like_samples(
    samples: Seq<Float32>,
    radius: int,
    texels: Seq<int>,
    largest: int,
)
    requires
        normalizable(samples, radius),
        texels.len() == 2 * radius + 1,
        forall|i: int| 0 <= i < texels.len() ==> 0 <= #[trigger] texels[i] <= largest,
    ensures
        ({
            let n = 2 * radius + 1;
            let total = both_sides(sample_units(samples, radius));
            let blurred = convolution(weight_units(samples, radius), texels, n);
            let exact = convolution(sample_units(samples, radius), texels, n);
            let bound = (2 * radius + 2) * (largest * (total * one()));
            -bound <= 0x100_0000 * (blurred * total - exact * one()) <= bound
        }),
{
    let n = 2 * radius + 1;
    let kernel = sample_units(samples, radius);
    let total = both_sides(kernel);
    let u = one() as int;
    lemma_convolution(samples, radius, texels, largest, n);
    lemma_exact_total(kernel, n);
    lemma_partial_total(samples, radius, n);
    vstd::arithmetic::power2::lemma2_to64();
    lemma_pow2_below(60, 149);
    vstd::arithmetic::power2::lemma2_to64_rest();
    assert(texels[0] <= largest);
    assert(0x200_0000 * (largest * (n * total)) <= largest * (total * u)) by (nonlinear_arith)
        requires
            0 <= n <= 257,
            u >= 0x4_0000_0000,
            largest >= 0,
            total >= 0,
    ;
    assert((4 * radius + 3) * (largest * (total * u)) + largest * (total * u) == 2 * ((2 * radius
        + 2) * (largest * (total * u)))) by (nonlinear_arith);
}

proof fn lemma_convolution_of_ones(kernel: Seq<int>, texels: Seq<int>, n: int)
    requires
        0 <= n <= texels.len(),
        forall|i: int| 0 <= i < texels.len() ==> #[trigger] texels[i] == 1,
    ensures
        convolution(kernel, texels, n) == exact_total(kernel, n),
    decreases n,
{
    if n > 0 {
        lemma_convolution_of_ones(kernel, texels, n - 1);
        assert(texels[n - 1] == 1);
    }
}

/// The weights of a kernel are normalized. None is negative or above one, and
/// those beyond the radius are zero. They do not grow with the distance if the
/// samples do not. Both halves and the middle add up to one, off by at most two
/// to the power -24 for each texel in reach, and once more.
pub proof fn law_weights_are_normalized(samples: Seq<Float32>, radius: int)
    requires
        normalizable(samples, radius),
    ensures
        forall|k: int|
            0 <= k <= radius ==> {
                &&& (#[trigger] weight(samples, radius, k))@ is Finite
                &&& 0 <= weight(samples, radius, k)@.units() <= one()
            },
        forall|k: int|
            k > radius ==> #[trigger] weight(samples, radius, k) == (Float32 { bits: 0 }),
        falling(sample_units(samples, radius)) ==> falling(weight_units(samples, radius)),
        ({
            let off = both_sides(weight_units(samples, radius)) - one();
            let bound = (2 * radius + 2) * one();
            -bound <= 0x100_0000 * off <= bound
        }),
{
    let n = 2 * radius + 1;
    let kernel = sample_units(samples, radius);
    let weights = weight_units(samples, radius);
    let total = partial_total(samples, radius, n);
    let t = total@.units();
    lemma_weight(samples, radius, 0);
    assert forall|k: int| 0 <= k <= radius implies {
        &&& (#[trigger] weight(samples, radius, k))@ is Finite
        &&& 0 <= weight(samples, radius, k)@.units() <= one()
    } by {
        lemma_weight(samples, radius, k);
    }
    assert forall|k: int| k > radius implies #[trigger] weight(samples, radius, k) == (Float32 {
        bits: 0,
    }) by {
        let zero = Float32 { bits: 0 };
        assert(zero@ == Value::zero());
        assert(zero@.over(total@) == Value::zero()) by {
            reveal(Value::over);
            lemma_pow2_pos(277);
            assert(0 * one() == 0);
            rounding::lemma_nearest_integer_parts(0, t as nat, 0, 0);
        }
        lemma_encoding(zero, Value::zero());
    }
    if falling(kernel) {
        assert forall|i: int, j: int| 0 <= i <= j < weights.len() implies weights[j]
            <= weights[i] by {
            lemma_weight(samples, radius, i);
            lemma_weight(samples, radius, j);
            let near = kernel[i];
            let far = kernel[j];
            assert(far * one() <= near * one()) by (nonlinear_arith)
                requires
                    far <= near,
            ;
            rounding::lemma_nearest_magnitude_monotonic(
                far as nat * one(),
                near as nat * one(),
                t as nat,
            );
        }
    }
    let ones = Seq::new(n as nat, |i: int| 1int);
    law_weights_blur_like_samples(samples, radius, ones, 1);
    lemma_convolution_of_ones(kernel, ones, n);
    lemma_convolution_of_ones(weights, ones, n);
    lemma_exact_total(kernel, n);
    lemma_exact_total(weights, n);
    lemma_partial_total(samples, radius, n);
    let sum = both_sides(kernel);
    let w = both_sides(weights);
    let u = one() as int;
    assert(sum > 0) by {
        if sum == 0 {
            assert((n - 1) * (0x8001 * sum) == 0) by (nonlinear_arith)
                requires
                    sum == 0,
            ;
        }
    }
    let off = w - u;
    let bound = (2 * radius + 2) * u;
    assert(w * sum - sum * u == off * sum) by (nonlinear_arith)
        requires
            off == w - u,
    ;
    assert((2 * radius + 2) * (1 * (sum * u)) == bound * sum) by (nonlinear_arith)
        requires
            bound == (2 * radius + 2) * u,
    ;
    assert(-bound <= 0x100_0000 * off <= bound) by (nonlinear_arith)
        requires
            -(bound * sum) <= 0x100_0000 * (off * sum) <= bound * sum,
            sum > 0,
    ;
}

/// Samples of at most one, such as exponentials of numbers that are not positive,
/// have a finite sum.
pub proof fn law_small_samples_are_normalizable(samples: Seq<Float32>, radius: int)
    requires
        0 <= radius <= MAX_KERNEL_RADIUS,
        radius < samples.len(),
        forall|k: int|
            0 <= k <= radius ==> (#[trigger] samples[k])@ is Finite && 0 <= samples[k]@.units()
                <= one(),
        samples[0]@.units() > 0,
    ensures
        normalizable(samples, radius),
{
    lemma_small_total(samples, radius, 2 * radius + 1);
}

proof fn lemma_small_total(samples: Seq<Float32>, radius: int, n: int)
    requires
        0 <= radius <= MAX_KERNEL_RADIUS,
        radius < samples.len(),
        forall|k: int|
            0 <= k <= radius ==> (#[trigger] samples[k])@ is Finite && 0 <= samples[k]@.units()
                <= one(),
        0 <= n <= 2 * radius + 1,
    ensures
        partial_total(samples, radius, n)@ is Finite,
        0 <= partial_total(samples, radius, n)@.units() <= n * one(),
    decreases n,
{
    if n == 0 {
        assert((Float32 { bits: 0 })@ == Value::zero());
        assert(0 * one() == 0);
    } else {
        lemma_small_total(samples, radius, n - 1);
        let before = partial_total(samples, radius, n - 1);
        let added = samples[distance(n - 1, radius)];
        assert(partial_total(samples, radius, n) == before.sum(added));
        lemma_sum_value(before, added);
        lemma_plus_positive(before@, added@);
        lemma_from_nat_exact(n as nat);
        assert((n - 1) * one() + one() == n * one()) by (nonlinear_arith);
        rounding::lemma_nearest_magnitude_monotonic(
            (before@.units() + added@.units()) as nat,
            n as nat * one(),
            1,
        );
    }
}

} // verus!
