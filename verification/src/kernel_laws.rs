//! What the kernel of a blur is made of: how far it reaches, and the exponents of
//! its weights.
use crate::blur_kernel::{exponent, kernel_radius, kernel_sigma};
use crate::float::{
    lemma_from_nat_value, lemma_negated_value, lemma_parts_of, lemma_pow2_add, lemma_pow2_below,
    lemma_product_value, lemma_quotient_value, lemma_whole_value, one, Float32, Value,
};
use crate::rounding;
use vstd::arithmetic::power2::{lemma_pow2_pos, lemma_pow2_unfold, pow2};
use vstd::prelude::*;

verus! {

/// The deviation of a kernel in units: at least half a texel.
pub open spec fn kernel_deviation(sigma: Float32) -> int {
    if 2 * sigma@.units() < one() {
        pow2(148) as int
    } else {
        sigma@.units()
    }
}

proof fn lemma_kernel_sigma(sigma: Float32)
    requires
        sigma@ is Finite,
    ensures
        kernel_sigma(sigma)@ is Finite,
        kernel_sigma(sigma)@.units() == kernel_deviation(sigma),
        2 * kernel_deviation(sigma) >= one(),
        2 * pow2(148) == one(),
{
    vstd::arithmetic::power2::lemma2_to64();
    lemma_pow2_add(23, 125);
    lemma_pow2_add(1, 148);
}

/// A kernel reaches three deviations to either side, brought up to whole texels.
/// Single precision can be off by half a texel of that at most.
pub proof fn law_kernel_reaches_three_deviations(sigma: Float32)
    requires
        sigma@ is Finite,
        sigma@.units() <= 0x10_0000 * one(),
    ensures
        ({
            let reach = kernel_radius(sigma) * one();
            let three = 3 * kernel_deviation(sigma);
            &&& 2 * three <= 2 * reach + one()
            &&& 2 * reach <= 2 * three + 3 * one()
        }),
{
    lemma_kernel_sigma(sigma);
    let s = kernel_sigma(sigma)@;
    let u = one() as int;
    lemma_pow2_pos(149);
    vstd::arithmetic::power2::lemma2_to64();
    lemma_pow2_add(24, 149);
    lemma_pow2_below(173, 276);
    lemma_pow2_below(30, 149);
    let three = Value::whole(false, 3);
    let m = s->Finite_magnitude;
    assert(3 * one() == three->Finite_magnitude);
    assert(m * (3 * one()) <= pow2(276) * one()) by (nonlinear_arith)
        requires
            m <= 0x10_0000 * u,
            0x100_0000 * u <= pow2(276),
            u == one(),
            u > 0,
    ;
    crate::float::lemma_times_error(s, three);
    let t = s.times(three);
    let d = s.units();
    assert(s.units() * three.units() == 3 * (d * u)) by (nonlinear_arith)
        requires
            d == s.units(),
            three.units() == 3 * u,
    ;
    let off = t.units() - 3 * d;
    assert(t.units() * u - 3 * (d * u) == off * u) by (nonlinear_arith)
        requires
            off == t.units() - 3 * d,
    ;
    assert(d * u >= 0) by (nonlinear_arith)
        requires
            d >= 0,
            u > 0,
    ;
    assert(-u <= 2 * off <= u) by (nonlinear_arith)
        requires
            -(3 * (d * u) + 0x100_0000 * u) <= 0x100_0000 * (off * u) <= 3 * (d * u) + 0x100_0000
                * u,
            0 <= d <= 0x10_0000 * u,
            u >= 0x4000_0000,
    ;
    crate::float::lemma_floor_ceil_enclose(t);
    let c = t.ceil_int();
    assert((c - 1) * u == c * u - u) by (nonlinear_arith);
    assert(0 <= c <= 0x40_0000 && t.floor_int() >= 0) by (nonlinear_arith)
        requires
            (c - 1) * u < t.units(),
            t.units() <= c * u,
            t.units() < (t.floor_int() + 1) * u,
            0 <= t.units() <= 0x3f_ffff * u,
            u > 0,
    ;
    crate::float::lemma_whole_saturated(t, 0, u32::MAX as int);
}

/// Twice a number is exact.
proof fn lemma_twice(a: Float32)
    requires
        a@ is Finite,
        0 <= a@.units() <= 0x40 * one(),
    ensures
        Float32::of(Value::whole(false, 2)).product(a)@ is Finite,
        Float32::of(Value::whole(false, 2)).product(a)@.units() == 2 * a@.units(),
{
    let two = Float32::of(Value::whole(false, 2));
    lemma_whole_value(2);
    lemma_product_value(two, a);
    let (m, k) = lemma_parts_of(a);
    let n = a@->Finite_magnitude;
    let u = one();
    lemma_pow2_pos(149);
    vstd::arithmetic::power2::lemma2_to64();
    lemma_pow2_add(7, 149);
    lemma_pow2_below(157, 277);
    lemma_pow2_unfold(157);
    lemma_pow2_unfold(k + 1);
    assert(2 * n == m * pow2(k + 1)) by (nonlinear_arith)
        requires
            n == m * pow2(k),
            pow2(k + 1) == 2 * pow2(k),
    ;
    rounding::lemma_nearest_magnitude_exact(m, k + 1);
    rounding::lemma_nearest_magnitude_scale(2 * n, 1, u);
    assert((2 * u) * n == u * (2 * n)) by (nonlinear_arith);
    assert(u * 1 == u);
    reveal(Value::times);
}

/// The square of a small whole number is exact, and negative here.
proof fn lemma_square(k: nat)
    requires
        k <= 128,
    ensures
        ({
            let distance = Float32::of(Value::from_nat(k));
            let negated = Float32::of(distance@.negated());
            let square = negated.product(distance)@;
            &&& square is Finite && square->Finite_negative
            &&& square->Finite_magnitude == (k * k) * one()
        }),
{
    let distance = Float32::of(Value::from_nat(k));
    lemma_from_nat_value(k);
    lemma_negated_value(distance);
    let negated = Float32::of(distance@.negated());
    lemma_product_value(negated, distance);
    let u = one();
    let n = k * k;
    assert(n <= 16384) by (nonlinear_arith)
        requires
            n == k * k,
            k <= 128,
    ;
    lemma_pow2_pos(149);
    vstd::arithmetic::power2::lemma2_to64();
    lemma_pow2_add(15, 149);
    lemma_pow2_below(164, 277);
    assert(n * u <= 16384 * u) by (nonlinear_arith)
        requires
            n <= 16384,
    ;
    rounding::lemma_nearest_magnitude_exact(n, 149);
    rounding::lemma_nearest_magnitude_scale(n * u, 1, u);
    assert((k * u) * (k * u) == u * (n * u)) by (nonlinear_arith)
        requires
            n == k * k,
    ;
    assert(u * 1 == u);
    reveal(Value::times);
}

/// The exponent of a weight is the square of its distance, divided by twice the
/// square of the deviation, and negative: off by at most three times two to the
/// power -24 of that.
#[verifier::rlimit(40)]
pub proof fn law_exponents(sigma: Float32, k: nat)
    requires
        sigma@ is Finite,
        sigma@.units() <= 0x40 * one(),
        k <= 128,
    ensures
        exponent(sigma, k)@ is Finite,
        exponent(sigma, k)@.units() <= 0,
        k == 0 ==> exponent(sigma, k)@.units() == 0,
        ({
            let s = kernel_deviation(sigma);
            let u = one() as int;
            let exact = (k * k) * (u * (u * u));
            let found = -exponent(sigma, k)@.units() * (2 * (s * s));
            -(3 * exact) <= 0x100_0000 * (found - exact) <= 3 * exact
        }),
{
    let d = kernel_sigma(sigma);
    lemma_kernel_sigma(sigma);
    lemma_square(k);
    lemma_twice(d);
    let u = one();
    let n = k * k;
    let s = d@->Finite_magnitude;
    lemma_pow2_pos(149);
    vstd::arithmetic::power2::lemma2_to64();
    lemma_pow2_add(15, 149);
    lemma_pow2_below(164, 276);
    lemma_pow2_below(60, 149);
    vstd::arithmetic::power2::lemma2_to64_rest();
    let two_s = Float32::of(Value::whole(false, 2)).product(d);
    lemma_product_value(two_s, d);
    assert((2 * s) * s == 2 * (s * s)) by (nonlinear_arith);
    assert(s * s <= 0x1000 * (u * u)) by (nonlinear_arith)
        requires
            s <= 0x40 * u,
    ;
    assert(4 * (s * s) >= u * u) by (nonlinear_arith)
        requires
            2 * s >= u,
    ;
    assert((2 * s) * s <= pow2(276) * u) by (nonlinear_arith)
        requires
            (2 * s) * s <= 0x2000 * (u * u),
            0x2000 * u <= pow2(276),
    ;
    assert(two_s@->Finite_magnitude == 2 * s);
    crate::float::lemma_times_error(two_s@, d@);
    let bottom = two_s.product(d);
    let p = bottom@.units();
    let negated = Float32::of(Float32::of(Value::from_nat(k))@.negated());
    let top = negated.product(Float32::of(Value::from_nat(k)));
    lemma_quotient_value(top, bottom);
    let uu = (u * u) as int;
    let ss = (s * s) as int;
    assert(two_s@.units() * d@.units() == 2 * ss) by (nonlinear_arith)
        requires
            two_s@.units() == 2 * s,
            d@.units() == s,
            ss == s * s,
    ;
    assert(u <= uu / 0x1000_0000_0000_0000) by (nonlinear_arith)
        requires
            uu == u * u,
            u >= 0x1000_0000_0000_0000,
    ;
    let delta = p * u - 2 * ss;
    assert(4 * p >= u && p <= 0x4000 * u) by (nonlinear_arith)
        requires
            delta == p * u - 2 * ss,
            -(2 * ss + 0x100_0000 * u) <= 0x100_0000 * delta <= 2 * ss + 0x100_0000 * u,
            4 * ss >= u * u,
            ss <= 0x1000 * (u * u),
            u >= 0x1000_0000_0000_0000,
    ;
    let a = n * u;
    let q = a * u;
    rounding::lemma_nearest_magnitude_error(q, p as nat);
    let e = rounding::nearest_magnitude(q, p as nat);
    assert(n <= 16384) by (nonlinear_arith)
        requires
            n == k * k,
            k <= 128,
    ;
    lemma_pow2_add(17, 149);
    lemma_pow2_below(167, 277);
    lemma_pow2_unfold(167);
    assert(q <= pow2(166) * p as nat) by (nonlinear_arith)
        requires
            q == a * u,
            a == n * u,
            n <= 16384,
            4 * p >= u,
            pow2(166) == 0x2_0000 * u,
    ;
    rounding::lemma_nearest_magnitude_upper(q, p as nat, 166);
    assert(top@.over(bottom@) == Value::Finite { negative: true, magnitude: e }) by {
        reveal(Value::over);
    }
    lemma_exponent_error(n as int, u as int, ss, p, e as int, delta);
    if k == 0 {
        assert(0 * u == 0);
        rounding::lemma_nearest_integer_parts(0, p as nat, 0, 0);
        assert(q < 0x100_0000 * p as nat);
    }
}

#[verifier::rlimit(40)]
proof fn lemma_exponent_error(n: int, u: int, ss: int, p: int, e: int, delta: int)
    requires
        0 <= n <= 16384,
        u >= 0x1000_0000_0000_0000,
        4 * p >= u,
        p <= 0x4000 * u,
        e >= 0,
        ss >= 0,
        delta == p * u - 2 * ss,
        -(2 * ss + 0x100_0000 * u) <= 0x100_0000 * delta <= 2 * ss + 0x100_0000 * u,
        ({
            let off = e * p - (n * u) * u;
            ||| -p <= 2 * off <= p
            ||| -((n * u) * u) <= 0x100_0000 * off <= (n * u) * u
        }),
        n == 0 ==> e == 0,
    ensures
        ({
            let exact = n * (u * (u * u));
            -(3 * exact) <= 0x100_0000 * (e * (2 * ss) - exact) <= 3 * exact
        }),
{
    let exact = n * (u * (u * u));
    let q = (n * u) * u;
    let off = e * p - q;
    let b = 0x100_0000int;
    let t = e * (2 * ss) - exact;
    assert(exact == q * u) by (nonlinear_arith)
        requires
            exact == n * (u * (u * u)),
            q == (n * u) * u,
    ;
    assert(t == off * u - e * delta) by (nonlinear_arith)
        requires
            t == e * (2 * ss) - exact,
            exact == q * u,
            off == e * p - q,
            delta == p * u - 2 * ss,
    ;
    if n == 0 {
        assert(exact == 0) by (nonlinear_arith)
            requires
                exact == n * (u * (u * u)),
                n == 0,
        ;
        assert(e * (2 * ss) == 0) by (nonlinear_arith)
            requires
                e == 0,
        ;
    } else {
        let uu = u * u;
        let nuu = n * uu;
        assert(q == nuu) by (nonlinear_arith)
            requires
                q == (n * u) * u,
                nuu == n * uu,
                uu == u * u,
        ;
        assert(nuu >= uu && uu >= 0x1000_0000_0000_0000 * u) by (nonlinear_arith)
            requires
                nuu == n * uu,
                uu == u * u,
                n >= 1,
                u >= 0x1000_0000_0000_0000,
        ;
        // The quotient is not large.
        assert(e <= 0x10 * (n * u)) by (nonlinear_arith)
            requires
                e * p == q + off,
                q == nuu,
                nuu == (n * u) * u,
                2 * off <= p || 0x100_0000 * off <= q,
                4 * p >= u,
                p <= 0x4000 * u,
                n >= 1,
                u >= 0x1000_0000_0000_0000,
        ;
        assert(b * off <= q + b * p && -(q + b * p) <= b * off);
        assert(b * (off * u) <= exact + b * (p * u) && -(exact + b * (p * u)) <= b * (off * u))
            by (nonlinear_arith)
            requires
                b * off <= q + b * p,
                -(q + b * p) <= b * off,
                exact == q * u,
                u > 0,
        ;
        let found = e * (2 * ss);
        assert(b * (e * delta) <= found + b * (e * u) && -(found + b * (e * u)) <= b * (e
            * delta)) by (nonlinear_arith)
            requires
                -(2 * ss + b * u) <= b * delta,
                b * delta <= 2 * ss + b * u,
                found == e * (2 * ss),
                e >= 0,
        ;
        // What is left over is far below the last place.
        assert(b * (p * u) + b * (e * u) <= exact / 4) by (nonlinear_arith)
            requires
                b == 0x100_0000,
                p <= 0x4000 * u,
                e <= 0x10 * (n * u),
                exact == nuu * u,
                nuu == n * uu,
                uu == u * u,
                n >= 1,
                u >= 0x1000_0000_0000_0000,
        ;
        assert(found == exact + t);
    }
}

} // verus!
