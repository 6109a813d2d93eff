//! Proof that the regions of a blur hold every texel that compositing samples,
//! rounding errors included.
use crate::backdrop::{far_edge, near_edge};
use crate::blur_kernel::{between, region_end, region_start, texel_position, texel_scale};
use crate::float::{lemma_from_nat_exact, lemma_pow2_add, lemma_pow2_below, one, Value};
use crate::rounding;
use crate::scene::BackdropBlur;
use vstd::arithmetic::power2::{lemma_pow2_pos, pow2};
use vstd::prelude::*;

verus! {

/// The coordinates for which single precision leaves no doubt about a texel.
pub const COVERAGE_LIMIT: u32 = 0x8_0000;

/// The first of the two texels along one axis that a bilinear sample at `point`,
/// counted in units, is taken from.
pub open spec fn sampled_texel(
    point: int,
    source_start: u32,
    source_len: u32,
    output_len: u32,
) -> int {
    let u = one() as int;
    (2 * ((point - source_start * u) * output_len) - source_len * u) / (2 * (source_len * u))
}

/// The scale of a downsampled texture is at most one and off by at most two to
/// the power -24 of itself.
proof fn lemma_scale(source_len: u32, output_len: u32)
    requires
        0 < output_len <= source_len <= COVERAGE_LIMIT,
    ensures
        ({
            let scale = texel_scale(source_len, output_len);
            let u = one() as int;
            let off = scale.units() * source_len - output_len * u;
            &&& scale is Finite
            &&& !scale->Finite_negative
            &&& 0 <= scale.units() <= u
            &&& -(output_len * u) <= 0x100_0000 * off <= output_len * u
        }),
{
    reveal(Value::over);
    lemma_from_nat_exact(source_len as nat);
    lemma_from_nat_exact(output_len as nat);
    let u = one();
    let src = source_len as nat;
    let out = output_len as nat;
    lemma_pow2_pos(149);
    vstd::arithmetic::power2::lemma2_to64();
    lemma_pow2_below(64, 149);
    lemma_pow2_below(149, 276);
    assert(src * u > 0) by (nonlinear_arith)
        requires
            src > 0,
            u > 0,
    ;
    assert((out * u) * u == u * (out * u) && src * u == u * src) by (nonlinear_arith);
    rounding::lemma_nearest_magnitude_scale(out * u, src, u);
    assert(out * u <= u * src) by (nonlinear_arith)
        requires
            out <= src,
    ;
    rounding::lemma_nearest_magnitude_upper(out * u, src, 149);
    vstd::arithmetic::power2::lemma_pow2_strictly_increases(149, 277);
    rounding::lemma_nearest_magnitude_error(out * u, src);
    assert(out * u >= u) by (nonlinear_arith)
        requires
            out >= 1,
    ;
    assert(0x1_0000_0000_0000_0000 <= u);
}

/// An upper bound on a scaled position.
proof fn lemma_position_above(d: int, rd: int, q: int, p: int, src: int, out: int, u: int)
    requires
        0 <= d <= 0x20_0000 * u,
        0 <= rd,
        0x100_0000 * (rd - d) <= d,
        0 <= q,
        0x100_0000 * (q * src - out * u) <= out * u,
        0x100_0000 * (p * u - rd * q) <= rd * q + 0x100_0000 * u,
        0 < out <= src <= COVERAGE_LIMIT,
        d * out <= 0x8_0000 * (src * u),
        u >= 0x100_0000,
    ensures
        4 * (p * src) <= 4 * (d * out) + src * u,
{
    let a = rd * q;
    let qs = q * src;
    let ou = out * u;
    let ps = p * src;
    let dout = d * out;
    let su = src * u;
    let asrc = a * src;
    let doutu = dout * u;
    let psu = ps * u;
    assert(asrc == rd * qs && psu == (p * u) * src && doutu == d * ou) by (nonlinear_arith)
        requires
            a == rd * q,
            qs == q * src,
            asrc == a * src,
            ps == p * src,
            psu == ps * u,
            dout == d * out,
            doutu == dout * u,
            ou == out * u,
    ;
    assert(0x1_0000_0000_0000 * asrc <= 0x1_0000_0200_0001 * doutu) by {
        let x = 0x100_0000 * rd;
        let y = 0x100_0000 * qs;
        let z = 0x100_0001 * d;
        let w = 0x100_0001 * ou;
        assert(y >= 0) by (nonlinear_arith)
            requires
                y == 0x100_0000 * qs,
                qs == q * src,
                q >= 0,
                src > 0,
        ;
        assert(x * y <= z * w) by (nonlinear_arith)
            requires
                0 <= x <= z,
                0 <= y <= w,
        ;
        assert(x * y == 0x1_0000_0000_0000 * (rd * qs)) by (nonlinear_arith)
            requires
                x == 0x100_0000 * rd,
                y == 0x100_0000 * qs,
        ;
        assert(z * w == 0x1_0000_0200_0001 * (d * ou)) by (nonlinear_arith)
            requires
                z == 0x100_0001 * d,
                w == 0x100_0001 * ou,
        ;
    }
    assert(0x100_0000 * psu <= 0x100_0001 * asrc + 0x100_0000 * su) by {
        let pu = p * u;
        assert((0x100_0000 * pu) * src <= (0x100_0001 * a + 0x100_0000 * u) * src)
            by (nonlinear_arith)
            requires
                0x100_0000 * pu <= 0x100_0001 * a + 0x100_0000 * u,
                src > 0,
        ;
        assert((0x100_0000 * pu) * src == 0x100_0000 * (pu * src)) by (nonlinear_arith);
        assert((0x100_0001 * a + 0x100_0000 * u) * src == 0x100_0001 * (a * src) + 0x100_0000 * (
        src * u)) by (nonlinear_arith);
    }
    assert(doutu >= 0) by (nonlinear_arith)
        requires
            doutu == d * ou,
            ou == out * u,
            d >= 0,
            out > 0,
            u > 0,
    ;
    // The three errors together are below four of two to the power 24.
    assert(0x100_0000 * psu <= 0x100_0004 * doutu + 0x100_0000 * su);
    assert(0x100_0000 * ps <= 0x100_0004 * dout + 0x100_0000 * src) by (nonlinear_arith)
        requires
            0x100_0000 * psu <= 0x100_0004 * doutu + 0x100_0000 * su,
            psu == ps * u,
            doutu == dout * u,
            su == src * u,
            u > 0,
    ;
    assert(0x100_0000 * src <= su) by (nonlinear_arith)
        requires
            su == src * u,
            u >= 0x100_0000,
            src > 0,
    ;
}

/// A lower bound on a scaled position.
proof fn lemma_position_below(d: int, rd: int, q: int, p: int, src: int, out: int, u: int)
    requires
        0 <= d <= 0x20_0000 * u,
        0 <= rd,
        0x100_0000 * (rd - d) >= -d,
        0 <= q,
        0x100_0000 * (q * src - out * u) >= -(out * u),
        0x100_0000 * (p * u - rd * q) >= -(rd * q) - 0x100_0000 * u,
        0 < out <= src <= COVERAGE_LIMIT,
        u >= 0x100_0000,
    ensures
        0x100_0000 * (p * src) >= 0xff_fffd * (d * out) - 0x100_0000 * src,
{
    let a = rd * q;
    let qs = q * src;
    let ou = out * u;
    let ps = p * src;
    let dout = d * out;
    let su = src * u;
    let asrc = a * src;
    let doutu = dout * u;
    let psu = ps * u;
    assert(asrc == rd * qs && psu == (p * u) * src && doutu == d * ou) by (nonlinear_arith)
        requires
            a == rd * q,
            qs == q * src,
            asrc == a * src,
            ps == p * src,
            psu == ps * u,
            dout == d * out,
            doutu == dout * u,
            ou == out * u,
    ;
    assert(0x1_0000_0000_0000 * asrc >= 0xffff_fe00_0001 * doutu) by {
        let x = 0x100_0000 * rd;
        let y = 0x100_0000 * qs;
        let z = 0xff_ffff * d;
        let w = 0xff_ffff * ou;
        assert(w >= 0) by (nonlinear_arith)
            requires
                w == 0xff_ffff * ou,
                ou == out * u,
                u >= 0,
                out > 0,
        ;
        assert(x * y >= z * w) by (nonlinear_arith)
            requires
                0 <= z <= x,
                0 <= w <= y,
        ;
        assert(x * y == 0x1_0000_0000_0000 * (rd * qs)) by (nonlinear_arith)
            requires
                x == 0x100_0000 * rd,
                y == 0x100_0000 * qs,
        ;
        assert(z * w == 0xffff_fe00_0001 * (d * ou)) by (nonlinear_arith)
            requires
                z == 0xff_ffff * d,
                w == 0xff_ffff * ou,
        ;
    }
    assert(0x100_0000 * psu >= 0xff_ffff * asrc - 0x100_0000 * su) by {
        let pu = p * u;
        assert((0x100_0000 * pu) * src >= (0xff_ffff * a - 0x100_0000 * u) * src)
            by (nonlinear_arith)
            requires
                0x100_0000 * pu >= 0xff_ffff * a - 0x100_0000 * u,
                src > 0,
        ;
        assert((0x100_0000 * pu) * src == 0x100_0000 * (pu * src)) by (nonlinear_arith);
        assert((0xff_ffff * a - 0x100_0000 * u) * src == 0xff_ffff * (a * src) - 0x100_0000 * (src
            * u)) by (nonlinear_arith);
    }
    assert(doutu >= 0) by (nonlinear_arith)
        requires
            doutu == d * ou,
            ou == out * u,
            d >= 0,
            out > 0,
            u > 0,
    ;
    assert(0x100_0000 * psu >= 0xff_fffd * doutu - 0x100_0000 * su);
    assert(0x100_0000 * ps >= 0xff_fffd * dout - 0x100_0000 * src) by (nonlinear_arith)
        requires
            0x100_0000 * psu >= 0xff_fffd * doutu - 0x100_0000 * su,
            psu == ps * u,
            doutu == dout * u,
            su == src * u,
            u > 0,
    ;
}

/// How far the position computed for `a` can be from the exact one.
proof fn lemma_position(a: Value, s: u32, src: u32, out: u32)
    requires
        a is Finite,
        s <= COVERAGE_LIMIT,
        0 < out <= src <= COVERAGE_LIMIT,
        -0x20_0000 * one() <= a.units() - s * one() <= 0x20_0000 * one(),
    ensures
        ({
            let u = one() as int;
            let exact = a.units() - s * u;
            let moved = a.minus(Value::from_nat(s as nat));
            let scale = texel_scale(src, out);
            let p = texel_position(a, s, scale);
            let rd = moved.units();
            let off = 0x100_0000 * (p.units() * u - rd * scale.units());
            &&& moved is Finite
            &&& p is Finite
            &&& exact >= 0 ==> {
                &&& rd >= 0
                &&& p.units() >= 0
                &&& -exact <= 0x100_0000 * (rd - exact) <= exact
                &&& -(rd * scale.units()) - 0x100_0000 * u <= off
                &&& off <= rd * scale.units() + 0x100_0000 * u
            }
            &&& exact <= 0 ==> {
                &&& rd <= 0
                &&& p.units() <= 0
                &&& exact <= 0x100_0000 * (rd - exact) <= -exact
                &&& rd * scale.units() - 0x100_0000 * u <= off
                &&& off <= -(rd * scale.units()) + 0x100_0000 * u
            }
            &&& -0x80_0000 * u <= p.units() <= 0x80_0000 * u
        }),
{
    let u = one() as int;
    let origin = Value::from_nat(s as nat);
    lemma_from_nat_exact(s as nat);
    lemma_pow2_pos(149);
    vstd::arithmetic::power2::lemma2_to64();
    lemma_pow2_add(24, 149);
    lemma_pow2_below(173, 276);
    crate::float::lemma_plus_error(a, origin.negated());
    let moved = a.minus(origin);
    lemma_scale(src, out);
    let scale = texel_scale(src, out);
    let m1 = moved->Finite_magnitude;
    let m2 = scale->Finite_magnitude;
    assert(m1 * m2 <= (0x40_0000 * u) * u) by (nonlinear_arith)
        requires
            0 <= m1 <= 0x40_0000 * u,
            0 <= m2 <= u,
    ;
    assert((0x40_0000 * u) * u <= pow2(276) * u) by (nonlinear_arith)
        requires
            0x40_0000 * u <= pow2(276),
            u >= 0,
    ;
    crate::float::lemma_times_error(moved, scale);
    let p = moved.times(scale);
    assert(moved.units() >= 0 ==> moved.units() * scale.units() >= 0) by (nonlinear_arith)
        requires
            scale.units() >= 0,
    ;
    assert(moved.units() <= 0 ==> moved.units() * scale.units() <= 0) by (nonlinear_arith)
        requires
            scale.units() >= 0,
    ;
    assert((-(m1 as int)) * (m2 as int) == -((m1 * m2) as int)) by (nonlinear_arith);
    let x = p.units() * u;
    let limit = (0x40_0000 * u) * u;
    assert(-2 * limit <= x <= 2 * limit) by {
        assert(4 * u <= limit) by (nonlinear_arith)
            requires
                limit == (0x40_0000 * u) * u,
                u >= 1,
        ;
    }
    assert(-0x80_0000 * u <= p.units() <= 0x80_0000 * u) by (nonlinear_arith)
        requires
            -2 * limit <= x <= 2 * limit,
            x == p.units() * u,
            limit == (0x40_0000 * u) * u,
            u >= 1,
    ;
}

/// The first texel that is kept is at or before the first one that is sampled.
proof fn lemma_start_covers(
    visible_start: Value,
    s: u32,
    src: u32,
    out: u32,
    point: int,
)
    requires
        visible_start is Finite,
        -(COVERAGE_LIMIT * one()) <= visible_start.units() <= COVERAGE_LIMIT * one(),
        s <= COVERAGE_LIMIT,
        0 < out <= src <= COVERAGE_LIMIT,
        visible_start.units() <= point,
        s * one() <= point < (s + src) * one(),
    ensures
        region_start(visible_start, s, src, out) <= between(
            sampled_texel(point, s, src, out),
            0,
            out - 1,
        ),
{
    let u = one() as int;
    lemma_pow2_pos(149);
    vstd::arithmetic::power2::lemma2_to64();
    lemma_pow2_below(64, 149);
    assert(s * u <= 0x8_0000 * u && s * u >= 0) by (nonlinear_arith)
        requires
            s <= 0x8_0000,
            u > 0,
    ;
    lemma_position(visible_start, s, src, out);
    lemma_scale(src, out);
    let scale = texel_scale(src, out);
    let p = texel_position(visible_start, s, scale);
    let d = visible_start.units() - s * u;
    let g = point - s * u;
    let t = sampled_texel(point, s, src, out);
    let su = src * u;
    assert((s + src) * u == s * u + su) by (nonlinear_arith)
        requires
            su == src * u,
    ;
    let f = p.floor_int();
    crate::float::lemma_floor_ceil_enclose(p);
    lemma_in_range(p);
    crate::float::lemma_whole_saturated(p, i64::MIN as int, i64::MAX as int);
    if d <= 0 {
        assert(f <= 0) by (nonlinear_arith)
            requires
                f * u <= p.units(),
                p.units() <= 0,
                u > 0,
        ;
    } else {
        let dout = d * out;
        assert(dout <= 0x8_0000 * su) by (nonlinear_arith)
            requires
                dout == d * out,
                0 <= d <= su,
                0 <= out <= 0x8_0000,
        ;
        lemma_position_above(
            d,
            visible_start.minus(Value::from_nat(s as nat)).units(),
            scale.units(),
            p.units(),
            src as int,
            out as int,
            u,
        );
        let ps = p.units() * src;
        let gout = g * out;
        assert(dout <= gout) by (nonlinear_arith)
            requires
                dout == d * out,
                gout == g * out,
                d <= g,
                out > 0,
        ;
        // f su <= p src <= g out + su / 2
        let fsu = f * su;
        assert(fsu <= ps) by (nonlinear_arith)
            requires
                fsu == f * su,
                su == src * u,
                ps == p.units() * src,
                f * u <= p.units(),
                src > 0,
        ;
        assert(t >= f - 1) by {
            assert(su > 0) by (nonlinear_arith)
                requires
                    su == src * u,
                    src > 0,
                    u > 0,
            ;
            let w = 2 * su;
            assert((f - 1) * w <= 2 * gout - su) by (nonlinear_arith)
                requires
                    w == 2 * su,
                    fsu == f * su,
                    2 * fsu <= 2 * gout + su,
            ;
            lemma_floor_at_least(2 * gout - su, w, f - 1);
        }
    }
    assert(region_start(visible_start, s, src, out) == between(f - 1, 0, out as int));
    assert(t <= out - 1) by {
        lemma_texel_inside(point, s, src, out);
    }
}

proof fn lemma_floor_at_least(n: int, d: int, k: int)
    requires
        d > 0,
        k * d <= n,
    ensures
        n / d >= k,
{
    vstd::arithmetic::div_mod::lemma_fundamental_div_mod(n, d);
    let q = n / d;
    assert(q >= k) by (nonlinear_arith)
        requires
            n == d * q + n % d,
            n % d < d,
            k * d <= n,
            d > 0,
    ;
}

proof fn lemma_floor_below(n: int, d: int, k: int)
    requires
        d > 0,
        n < k * d,
    ensures
        n / d < k,
{
    vstd::arithmetic::div_mod::lemma_fundamental_div_mod(n, d);
    let q = n / d;
    assert(q < k) by (nonlinear_arith)
        requires
            n == d * q + n % d,
            n % d >= 0,
            n < k * d,
            d > 0,
    ;
}

/// A sample inside the source starts at a texel of the output.
proof fn lemma_texel_inside(point: int, s: u32, src: u32, out: u32)
    requires
        0 < src,
        0 < out,
        s * one() <= point < (s + src) * one(),
    ensures
        -1 <= sampled_texel(point, s, src, out) <= out - 1,
{
    let u = one() as int;
    lemma_pow2_pos(149);
    let su = src * u;
    let g = point - s * u;
    let gout = g * out;
    assert((s + src) * u == s * u + su && su > 0) by (nonlinear_arith)
        requires
            su == src * u,
            src > 0,
            u > 0,
    ;
    assert(0 <= gout <= su * out) by (nonlinear_arith)
        requires
            gout == g * out,
            0 <= g <= su,
            out > 0,
    ;
    let w = 2 * su;
    assert((-1) * w <= 2 * gout - su);
    assert(out * w == 2 * (su * out)) by (nonlinear_arith)
        requires
            w == 2 * su,
    ;
    lemma_floor_at_least(2 * gout - su, w, -1);
    lemma_floor_below(2 * gout - su, w, out as int);
}

/// A position of this size converts to an integer without saturating.
proof fn lemma_in_range(p: Value)
    requires
        p is Finite,
        -0x80_0000 * one() <= p.units() <= 0x80_0000 * one(),
    ensures
        i64::MIN <= p.floor_int(),
        p.ceil_int() <= i64::MAX,
{
    let u = one() as int;
    lemma_pow2_pos(149);
    crate::float::lemma_floor_ceil_enclose(p);
    let f = p.floor_int();
    let c = p.ceil_int();
    assert(f >= -0x80_0001 && c <= 0x80_0001) by (nonlinear_arith)
        requires
            p.units() < (f + 1) * u,
            (c - 1) * u < p.units(),
            -0x80_0000 * u <= p.units() <= 0x80_0000 * u,
            u > 0,
    ;
}

/// A position computed for an end that is off by little is not much below the
/// exact one.
proof fn lemma_end_position(a: Value, s: u32, src: u32, out: u32, reach: int)
    requires
        a is Finite,
        s <= COVERAGE_LIMIT,
        0 < out <= src <= COVERAGE_LIMIT,
        -0x20_0000 * one() <= a.units() - s * one() <= 0x20_0000 * one(),
        0 <= reach,
        16 * (reach - (a.units() - s * one())) <= one(),
    ensures
        2 * (reach * out) - src * one() < 2 * (texel_position(
            a,
            s,
            texel_scale(src, out),
        ).units() * src),
{
    let u = one() as int;
    lemma_pow2_pos(149);
    vstd::arithmetic::power2::lemma2_to64();
    lemma_pow2_below(64, 149);
    lemma_position(a, s, src, out);
    lemma_scale(src, out);
    let scale = texel_scale(src, out);
    let p = texel_position(a, s, scale).units();
    let rd = a.minus(Value::from_nat(s as nat)).units();
    let q = scale.units();
    let h = a.units() - s * u;
    let su = src * u;
    let ps = p * src;
    let hout = h * out;
    let rout = reach * out;
    let ou = out * u;
    assert(ou <= su && ou > 0) by (nonlinear_arith)
        requires
            ou == out * u,
            su == src * u,
            0 < out <= src,
            u > 0,
    ;
    assert(0x100_0000 * src <= su) by (nonlinear_arith)
        requires
            su == src * u,
            u >= 0x100_0000,
            src > 0,
    ;
    assert(16 * (rout - hout) <= ou) by (nonlinear_arith)
        requires
            rout == reach * out,
            hout == h * out,
            ou == out * u,
            16 * (reach - h) <= u,
            out > 0,
    ;
    if h >= 0 {
        lemma_position_below(h, rd, q, p, src as int, out as int, u);
        assert(hout <= 0x20_0000 * ou) by (nonlinear_arith)
            requires
                hout == h * out,
                ou == out * u,
                h <= 0x20_0000 * u,
                out > 0,
        ;
    } else {
        let e = -h;
        assert((-p) * u == -(p * u) && (-rd) * q == -(rd * q)) by (nonlinear_arith);
        assert(e * out == -hout && (-p) * src == -ps) by (nonlinear_arith)
            requires
                e == -h,
                hout == h * out,
                ps == p * src,
        ;
        assert(16 * e <= u);
        assert(16 * (e * out) <= ou) by (nonlinear_arith)
            requires
                ou == out * u,
                16 * e <= u,
                out > 0,
        ;
        lemma_position_above(e, -rd, q, -p, src as int, out as int, u);
        assert(16 * reach <= u);
        assert(16 * rout <= ou) by (nonlinear_arith)
            requires
                rout == reach * out,
                ou == out * u,
                16 * reach <= u,
                out > 0,
        ;
    }
}

/// The kept texels end after the last one that is sampled.
proof fn lemma_end_covers(
    visible_start: Value,
    visible_len: Value,
    s: u32,
    src: u32,
    out: u32,
    point: int,
)
    requires
        visible_start is Finite,
        visible_len is Finite,
        -(COVERAGE_LIMIT * one()) <= visible_start.units() <= COVERAGE_LIMIT * one(),
        0 <= visible_len.units() <= COVERAGE_LIMIT * one(),
        s <= COVERAGE_LIMIT,
        0 < out <= src <= COVERAGE_LIMIT,
        point <= visible_start.units() + visible_len.units(),
        s * one() <= point < (s + src) * one(),
    ensures
        between(sampled_texel(point, s, src, out) + 1, 0, out - 1) < region_end(
            visible_start,
            visible_len,
            s,
            src,
            out,
        ),
{
    let u = one() as int;
    lemma_pow2_pos(149);
    vstd::arithmetic::power2::lemma2_to64();
    lemma_pow2_add(20, 149);
    lemma_pow2_below(169, 276);
    assert(s * u <= 0x8_0000 * u && s * u >= 0) by (nonlinear_arith)
        requires
            s <= 0x8_0000,
            u > 0,
    ;
    crate::float::lemma_plus_error(visible_start, visible_len);
    let end = visible_start.plus(visible_len);
    let exact_end = visible_start.units() + visible_len.units();
    lemma_end_position(end, s, src, out, exact_end - s * u);
    lemma_position(end, s, src, out);
    let scale = texel_scale(src, out);
    let p = texel_position(end, s, scale);
    crate::float::lemma_floor_ceil_enclose(p);
    lemma_in_range(p);
    crate::float::lemma_whole_saturated(p, i64::MIN as int, i64::MAX as int);
    let c = p.ceil_int();
    let g = point - s * u;
    let gout = g * out;
    let rout = (exact_end - s * u) * out;
    let su = src * u;
    let t = sampled_texel(point, s, src, out);
    assert(su > 0) by (nonlinear_arith)
        requires
            su == src * u,
            src > 0,
            u > 0,
    ;
    assert(gout <= rout) by (nonlinear_arith)
        requires
            gout == g * out,
            rout == (exact_end - s * u) * out,
            g <= exact_end - s * u,
            out > 0,
    ;
    let csu = c * su;
    assert(csu >= p.units() * src) by (nonlinear_arith)
        requires
            csu == c * su,
            su == src * u,
            p.units() <= c * u,
            src > 0,
    ;
    let w = 2 * su;
    assert(c * w == 2 * csu) by (nonlinear_arith)
        requires
            w == 2 * su,
            csu == c * su,
    ;
    lemma_floor_below(2 * gout - su, w, c);
    assert(t < c);
    lemma_texel_inside(point, s, src, out);
}

/// Compositing at any point that is both visible and inside the source reads two
/// texels along each axis. Clamped to the texture, both are among those that the
/// vertical pass keeps. Single precision rounds every step of the computation;
/// with coordinates up to [`COVERAGE_LIMIT`] and no more texels than pixels, the
/// halo makes up for that.
pub proof fn law_regions_cover_samples(
    visible_start: Value,
    visible_len: Value,
    source_start: u32,
    source_len: u32,
    output_len: u32,
    point: int,
)
    requires
        visible_start is Finite,
        visible_len is Finite,
        -(COVERAGE_LIMIT * one()) <= visible_start.units() <= COVERAGE_LIMIT * one(),
        0 <= visible_len.units() <= COVERAGE_LIMIT * one(),
        source_start <= COVERAGE_LIMIT,
        0 < output_len <= source_len <= COVERAGE_LIMIT,
        visible_start.units() <= point <= visible_start.units() + visible_len.units(),
        source_start * one() <= point < (source_start + source_len) * one(),
    ensures
        ({
            let start = region_start(visible_start, source_start, source_len, output_len);
            let end = region_end(visible_start, visible_len, source_start, source_len, output_len);
            let texel = sampled_texel(point, source_start, source_len, output_len);
            &&& start <= between(texel, 0, output_len - 1) < end
            &&& start <= between(texel + 1, 0, output_len - 1) < end
        }),
{
    lemma_start_covers(visible_start, source_start, source_len, output_len, point);
    lemma_end_covers(visible_start, visible_len, source_start, source_len, output_len, point);
}


/// The padding of a blur, and the number of pixels that its kernel reaches.
proof fn lemma_padding(blur: BackdropBlur)
    requires
        blur.sigma()@ is Finite,
        0 <= blur.sigma()@.units() <= 0x10_0000 * one(),
    ensures
        ({
            let reach = blur.reach();
            let u = one() as int;
            &&& 0 <= reach <= 0x40_0000
            &&& blur.padding() is Finite
            &&& 2 * blur.padding().units() >= (2 * reach + 3) * u
            &&& 2 * blur.padding().units() <= (2 * reach + 5) * u
            &&& blur.padding().units() <= 0x40_0003 * u
            &&& reach * u + u >= 3 * blur.sigma()@.units() + u / 2
            &&& reach * u <= 3 * blur.sigma()@.units() + 2 * u
        }),
{
    reveal(BackdropBlur::padding);
    let u = one() as int;
    lemma_pow2_pos(149);
    vstd::arithmetic::power2::lemma2_to64();
    lemma_pow2_add(24, 149);
    lemma_pow2_below(173, 276);
    lemma_pow2_below(8, 149);
    let sigma = blur.sigma()@;
    let three = Value::whole(false, 3);
    let m = sigma->Finite_magnitude;
    assert(0 * one() == 0 && 3 * one() == three->Finite_magnitude);
    assert(m <= 0x10_0000 * u);
    assert(m * (3 * one()) <= pow2(276) * one()) by (nonlinear_arith)
        requires
            m <= 0x10_0000 * u,
            0x100_0000 * u <= pow2(276),
            u == one(),
            u > 0,
    ;
    crate::float::lemma_times_error(sigma, three);
    let t = sigma.times(three);
    let exact = sigma.units() * three.units();
    assert(exact == 3 * (sigma.units() * u)) by (nonlinear_arith)
        requires
            exact == sigma.units() * three.units(),
            three.units() == 3 * u,
    ;
    let x = t.units() * u;
    let su = sigma.units() * u;
    assert(0 <= su <= (0x10_0000 * u) * u) by (nonlinear_arith)
        requires
            su == sigma.units() * u,
            0 <= sigma.units() <= 0x10_0000 * u,
            u > 0,
    ;
    assert(0x100 * u <= u * u) by (nonlinear_arith)
        requires
            u >= 0x100,
    ;
    assert((0x10_0000 * u) * u == 0x10_0000 * (u * u)) by (nonlinear_arith);
    assert((3 * sigma.units()) * u == 3 * su) by (nonlinear_arith)
        requires
            su == sigma.units() * u,
    ;
    assert(x <= 0x3f_ffff * (u * u));
    assert(t.units() <= 0x3f_ffff * u) by (nonlinear_arith)
        requires
            x <= 0x3f_ffff * (u * u),
            x == t.units() * u,
            u >= 1,
    ;
    crate::float::lemma_floor_ceil_enclose(t);
    let reach = t.ceil_int();
    assert(0 <= reach <= 0x40_0000) by (nonlinear_arith)
        requires
            (reach - 1) * u < t.units(),
            t.units() <= reach * u,
            0 <= t.units() <= 0x3f_ffff * u,
            u >= 1,
    ;
    let ru = reach * u;
    assert(0 <= ru <= 0x40_0000 * u) by (nonlinear_arith)
        requires
            ru == reach * u,
            0 <= reach <= 0x40_0000,
            u >= 1,
    ;
    let two = Value::whole(false, 2);
    assert(two.units() == 2 * u);
    crate::float::lemma_plus_error(t.ceiled(), two);
    assert((2 * reach + 3) * u == 2 * ru + 3 * u && (2 * reach + 5) * u == 2 * ru + 5 * u
        && (reach - 1) * u == ru - u) by (nonlinear_arith)
        requires
            ru == reach * u,
    ;
    let s3 = 3 * sigma.units();
    assert(4 * t.units() + u >= 4 * s3 && 4 * t.units() <= 4 * s3 + u) by (nonlinear_arith)
        requires
            x == t.units() * u,
            4 * x + u * u >= 4 * (s3 * u),
            4 * x <= 4 * (s3 * u) + u * u,
            u > 0,
    ;
}

/// The part of the frame that is copied for a blur holds every pixel that the
/// kernel reaches from what is visible, and a pixel more, as far as the frame
/// goes. It does not go far beyond that.
pub proof fn law_padding_holds_reach(
    blur: BackdropBlur,
    position: Value,
    length: Value,
    drawable: u32,
)
    requires
        blur.sigma()@ is Finite,
        0 <= blur.sigma()@.units() <= 0x10_0000 * one(),
        position is Finite,
        length is Finite,
        -0x10_0000 * one() <= position.units() <= 0x10_0000 * one(),
        0 <= length.units() <= 0x10_0000 * one(),
    ensures
        ({
            let u = one() as int;
            let reach = blur.reach() * u;
            let near = near_edge(position, blur.padding());
            let far = far_edge(position, length, blur.padding(), drawable);
            &&& near >= 0 && far <= drawable
            &&& near == 0 || near * u <= position.units() - reach - u
            &&& far == drawable || far * u >= position.units() + length.units() + reach + u
            &&& near * u >= position.units() - reach - 4 * u
            &&& far * u <= position.units() + length.units() + reach + 4 * u
        }),
{
    let u = one() as int;
    lemma_padding(blur);
    let padding = blur.padding();
    lemma_pow2_pos(149);
    vstd::arithmetic::power2::lemma2_to64();
    lemma_pow2_add(24, 149);
    lemma_pow2_below(173, 276);
    let reach = blur.reach() * u;
    assert((2 * blur.reach() + 3) * u == 2 * reach + 3 * u && (2 * blur.reach() + 5) * u == 2
        * reach + 5 * u) by (nonlinear_arith)
        requires
            reach == blur.reach() * u,
    ;
    crate::float::lemma_plus_error(position, padding.negated());
    let start = position.minus(padding);
    lemma_in_range(start);
    crate::float::lemma_floor_ceil_enclose(start);
    crate::float::lemma_whole_saturated(start, i64::MIN as int, i64::MAX as int);
    crate::float::lemma_plus_error(position, length);
    let sum = position.plus(length);
    crate::float::lemma_plus_error(sum, padding);
    let end = sum.plus(padding);
    lemma_in_range(end);
    crate::float::lemma_floor_ceil_enclose(end);
    crate::float::lemma_whole_saturated(end, i64::MIN as int, i64::MAX as int);
    let f = start.floor_int();
    let c = end.ceil_int();
    assert((f + 1) * u == f * u + u && (c - 1) * u == c * u - u) by (nonlinear_arith);
    assert(f < 0 ==> f * u < 0) by (nonlinear_arith)
        requires
            u > 0,
    ;
    assert(c > drawable ==> c * u > drawable * u) by (nonlinear_arith)
        requires
            u > 0,
    ;
}

/// The reach of a blur is three deviations, brought to whole pixels.
pub proof fn law_reach_is_three_deviations(blur: BackdropBlur)
    requires
        blur.sigma()@ is Finite,
        0 <= blur.sigma()@.units() <= 0x10_0000 * one(),
    ensures
        2 * (blur.reach() * one() + one()) >= 6 * blur.sigma()@.units() + one() - 1,
        blur.reach() * one() <= 3 * blur.sigma()@.units() + 2 * one(),
{
    lemma_padding(blur);
}

} // verus!
