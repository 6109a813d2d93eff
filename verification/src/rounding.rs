//! Rounding of rational magnitudes to a 24-bit significand.
use vstd::arithmetic::div_mod::{
    lemma_fundamental_div_mod, lemma_fundamental_div_mod_converse,
};
use vstd::arithmetic::power2::{lemma_pow2_pos, lemma_pow2_unfold, pow2};
use vstd::prelude::*;

verus! {

/// The integer nearest to `n / d`; a tie goes to the even one.
pub open spec fn nearest_integer(n: nat, d: nat) -> nat {
    let quotient = n / d;
    let rest = n % d;
    if 2 * rest < d || (2 * rest == d && quotient % 2 == 0) {
        quotient
    } else {
        quotient + 1
    }
}

/// The magnitude nearest to `n / d` that a 24-bit significand can hold, ties to
/// the even significand, as if exponents had no upper limit.
pub open spec fn nearest_magnitude(n: nat, d: nat) -> nat
    decreases n - d,
{
    if d == 0 || n < 0x100_0000 * d {
        nearest_integer(n, d)
    } else {
        2 * nearest_magnitude(n, 2 * d)
    }
}

/// A quotient and remainder determine how a fraction rounds.
pub proof fn lemma_nearest_integer_parts(n: nat, d: nat, quotient: nat, rest: nat)
    requires
        n == quotient * d + rest,
        rest < d,
    ensures
        nearest_integer(n, d) == if 2 * rest < d || (2 * rest == d && quotient % 2 == 0) {
            quotient
        } else {
            quotient + 1
        },
{
    lemma_fundamental_div_mod_converse(n as int, d as int, quotient as int, rest as int);
}

/// Rounding looks at the fraction only, not at how it is written.
pub proof fn lemma_nearest_integer_scale(n: nat, d: nat, c: nat)
    requires
        d > 0,
        c > 0,
    ensures
        nearest_integer(c * n, c * d) == nearest_integer(n, d),
{
    let q = n / d;
    let r = n % d;
    lemma_fundamental_div_mod(n as int, d as int);
    assert(n == d * q + r);
    assert(c * n == q * (c * d) + c * r) by (nonlinear_arith)
        requires
            n == d * q + r,
    ;
    assert(c * r < c * d) by (nonlinear_arith)
        requires
            r < d,
            c > 0,
    ;
    lemma_nearest_integer_parts(c * n, c * d, q, c * r);
    lemma_nearest_integer_parts(n, d, q, r);
    assert((2 * r < d) == (2 * (c * r) < c * d)) by (nonlinear_arith)
        requires
            c > 0,
    ;
    assert((2 * r == d) == (2 * (c * r) == c * d)) by (nonlinear_arith)
        requires
            c > 0,
    ;
}

/// The same for rounding to a significand.
pub proof fn lemma_nearest_magnitude_scale(n: nat, d: nat, c: nat)
    requires
        d > 0,
        c > 0,
    ensures
        nearest_magnitude(c * n, c * d) == nearest_magnitude(n, d),
    decreases n - d,
{
    assert(c * d > 0) by (nonlinear_arith)
        requires
            c > 0,
            d > 0,
    ;
    assert((n < 0x100_0000 * d) == (c * n < 0x100_0000 * (c * d))) by (nonlinear_arith)
        requires
            c > 0,
    ;
    if n < 0x100_0000 * d {
        lemma_nearest_integer_scale(n, d, c);
    } else {
        lemma_nearest_magnitude_scale(n, 2 * d, c);
        assert(c * (2 * d) == 2 * (c * d)) by (nonlinear_arith);
    }
}

/// The recursion stops at the first power of two that brings the quotient
/// below two to the power 24.
pub proof fn lemma_nearest_magnitude_at(n: nat, d: nat, k: nat)
    requires
        d > 0,
        n < 0x100_0000 * (pow2(k) * d),
        k > 0 ==> n >= 0x100_0000 * (pow2((k - 1) as nat) * d),
    ensures
        nearest_magnitude(n, d) == pow2(k) * nearest_integer(n, pow2(k) * d),
    decreases k,
{
    if k == 0 {
        assert(pow2(0) == 1) by {
            vstd::arithmetic::power2::lemma2_to64();
        }
        assert(pow2(0) * d == d);
    } else {
        let below = pow2((k - 1) as nat);
        lemma_pow2_unfold(k);
        lemma_pow2_pos((k - 1) as nat);
        assert(n >= 0x100_0000 * d) by (nonlinear_arith)
            requires
                n >= 0x100_0000 * (below * d),
                below >= 1,
        ;
        assert(pow2(k) * d == below * (2 * d)) by (nonlinear_arith)
            requires
                pow2(k) == 2 * below,
        ;
        if k > 1 {
            lemma_pow2_unfold((k - 1) as nat);
            assert(below * d == pow2((k - 2) as nat) * (2 * d)) by (nonlinear_arith)
                requires
                    below == 2 * pow2((k - 2) as nat),
            ;
        }
        lemma_nearest_magnitude_at(n, 2 * d, (k - 1) as nat);
        assert(2 * (below * nearest_integer(n, pow2(k) * d)) == pow2(k) * nearest_integer(
            n,
            pow2(k) * d,
        )) by (nonlinear_arith)
            requires
                pow2(k) == 2 * below,
        ;
    }
}

/// A magnitude that fits needs no rounding.
pub proof fn lemma_nearest_magnitude_exact(m: nat, k: nat)
    requires
        m < 0x100_0000,
    ensures
        nearest_magnitude(m * pow2(k), 1) == m * pow2(k),
    decreases k,
{
    let n = m * pow2(k);
    if n < 0x100_0000 {
        lemma_nearest_integer_parts(n, 1, n, 0);
    } else {
        assert(k > 0) by {
            vstd::arithmetic::power2::lemma2_to64();
        }
        lemma_pow2_unfold(k);
        let half = m * pow2((k - 1) as nat);
        assert(n == 2 * half) by (nonlinear_arith)
            requires
                n == m * pow2(k),
                pow2(k) == 2 * pow2((k - 1) as nat),
                half == m * pow2((k - 1) as nat),
        ;
        lemma_nearest_magnitude_scale(half, 1, 2);
        lemma_nearest_magnitude_exact(m, (k - 1) as nat);
    }
}

/// Rounding does not cross a power of two.
pub proof fn lemma_nearest_magnitude_upper(n: nat, d: nat, k: nat)
    requires
        d > 0,
        n <= pow2(k) * d,
    ensures
        nearest_magnitude(n, d) <= pow2(k),
    decreases n - d,
{
    if n < 0x100_0000 * d {
        let q = n / d;
        lemma_fundamental_div_mod(n as int, d as int);
        assert(q < pow2(k) || (q == pow2(k) && n % d == 0)) by (nonlinear_arith)
            requires
                n == d * q + n % d,
                n <= pow2(k) * d,
                d > 0,
                n % d >= 0,
        ;
    } else {
        assert(k > 0) by {
            vstd::arithmetic::power2::lemma2_to64();
            if k == 0 {
                assert(pow2(k) * d == d) by (nonlinear_arith)
                    requires
                        pow2(k) == 1,
                ;
            }
        }
        lemma_pow2_unfold(k);
        assert(pow2((k - 1) as nat) * (2 * d) == pow2(k) * d) by (nonlinear_arith)
            requires
                pow2(k) == 2 * pow2((k - 1) as nat),
        ;
        lemma_nearest_magnitude_upper(n, 2 * d, (k - 1) as nat);
    }
}

/// Rounding does not cross a power of two.
pub proof fn lemma_nearest_magnitude_lower(n: nat, d: nat, k: nat)
    requires
        d > 0,
        n >= pow2(k) * d,
    ensures
        nearest_magnitude(n, d) >= pow2(k),
    decreases n - d,
{
    vstd::arithmetic::power2::lemma2_to64();
    if n < 0x100_0000 * d {
        let q = n / d;
        lemma_fundamental_div_mod(n as int, d as int);
        assert(q >= pow2(k)) by (nonlinear_arith)
            requires
                n == d * q + n % d,
                n >= pow2(k) * d,
                d > 0,
                n % d < d,
        ;
    } else if k == 0 {
        assert(pow2(0) * (2 * d) == 2 * d);
        lemma_nearest_magnitude_lower(n, 2 * d, 0);
    } else {
        lemma_pow2_unfold(k);
        assert(pow2((k - 1) as nat) * (2 * d) == pow2(k) * d) by (nonlinear_arith)
            requires
                pow2(k) == 2 * pow2((k - 1) as nat),
        ;
        lemma_nearest_magnitude_lower(n, 2 * d, (k - 1) as nat);
    }
}

/// What is far below the last place of a significand does not change it.
pub proof fn lemma_nearest_magnitude_absorbs(m: nat, k: nat, rest: nat)
    requires
        0x80_0000 <= m < 0x100_0000,
        k >= 2,
        rest < pow2((k - 2) as nat),
    ensures
        rest <= m * pow2(k),
        nearest_magnitude(m * pow2(k) + rest, 1) == m * pow2(k),
        nearest_magnitude((m * pow2(k) - rest) as nat, 1) == m * pow2(k),
{
    let quarter = pow2((k - 2) as nat);
    let half = pow2((k - 1) as nat);
    let p = pow2(k);
    lemma_pow2_unfold(k);
    lemma_pow2_unfold((k - 1) as nat);
    assert(p == 4 * quarter && half == 2 * quarter);
    assert(m * p >= 0x80_0000 * p) by (nonlinear_arith)
        requires
            m >= 0x80_0000,
    ;
    assert(m * p <= 0x100_0000 * p - p) by (nonlinear_arith)
        requires
            m <= 0x100_0000 - 1,
    ;
    let above = m * p + rest;
    assert(p * 1 == p && half * 1 == half);
    lemma_nearest_magnitude_at(above, 1, k);
    lemma_nearest_integer_parts(above, p, m, rest);
    assert(p * m == m * p) by (nonlinear_arith);
    let under = (m * p - rest) as nat;
    if rest == 0 {
    } else if m > 0x80_0000 {
        assert(m * p >= 0x80_0000 * p + p) by (nonlinear_arith)
            requires
                m >= 0x80_0000 + 1,
        ;
        lemma_nearest_magnitude_at(under, 1, k);
        assert(m * p - p == (m - 1) * p) by (nonlinear_arith);
        lemma_nearest_integer_parts(under, p, (m - 1) as nat, (p - rest) as nat);
    } else {
        assert(m * p == 0x100_0000 * half);
        lemma_nearest_magnitude_at(under, 1, (k - 1) as nat);
        lemma_nearest_integer_parts(
            under,
            half,
            (0x100_0000 - 1) as nat,
            (half - rest) as nat,
        );
        assert(half * 0x100_0000 == m * p);
    }
}

/// A quotient with a nonzero remainder rounds as if the remainder were half of
/// the divisor, as long as at least one bit of the quotient is cut off.
proof fn lemma_nearest_integer_sticky(q: nat, m: nat, r: nat, j: nat)
    requires
        j >= 1,
        r < m,
    ensures
        nearest_integer(q * m + r, pow2(j) * m) == nearest_integer(
            2 * q + if r > 0 {
                1nat
            } else {
                0nat
            },
            2 * pow2(j),
        ),
{
    let sticky: nat = if r > 0 {
        1
    } else {
        0
    };
    let p = pow2(j);
    let h = pow2((j - 1) as nat);
    lemma_pow2_pos(j);
    lemma_pow2_unfold(j);
    let a = q / p;
    let b = q % p;
    lemma_fundamental_div_mod(q as int, p as int);
    assert(q == p * a + b);
    assert(q * m + r == a * (p * m) + (b * m + r)) by (nonlinear_arith)
        requires
            q == p * a + b,
    ;
    assert(b * m + r < p * m) by (nonlinear_arith)
        requires
            b + 1 <= p,
            r < m,
    ;
    lemma_nearest_integer_parts(q * m + r, p * m, a, b * m + r);
    assert(2 * q + sticky == a * (2 * p) + (2 * b + sticky)) by (nonlinear_arith)
        requires
            q == p * a + b,
    ;
    lemma_nearest_integer_parts(2 * q + sticky, 2 * p, a, 2 * b + sticky);
    assert(p * m == 2 * (h * m)) by (nonlinear_arith)
        requires
            p == 2 * h,
    ;
    if b < h {
        assert(b * m + r < h * m) by (nonlinear_arith)
            requires
                b + 1 <= h,
                r < m,
        ;
    } else if b == h {
    } else {
        assert(b * m + r > h * m) by (nonlinear_arith)
            requires
                b >= h + 1,
                r < m,
        ;
    }
}

/// The same for rounding to a significand, for a quotient with enough bits.
pub proof fn lemma_nearest_magnitude_sticky(q: nat, m: nat, r: nat, a: nat, b: nat)
    requires
        q >= 0x400_0000,
        r < m,
    ensures
        nearest_magnitude((q * m + r) * pow2(a), m * pow2(b)) == nearest_magnitude(
            (2 * q + if r > 0 {
                1nat
            } else {
                0nat
            }) * pow2(a),
            2 * pow2(b),
        ),
    decreases (q * m + r) * pow2(a) - m * pow2(b),
{
    let sticky: nat = if r > 0 {
        1
    } else {
        0
    };
    let pa = pow2(a);
    let pb = pow2(b);
    lemma_pow2_pos(a);
    lemma_pow2_pos(b);
    let n1 = (q * m + r) * pa;
    let d1 = m * pb;
    let n2 = (2 * q + sticky) * pa;
    let d2 = 2 * pb;
    assert(d1 > 0) by (nonlinear_arith)
        requires
            d1 == m * pb,
            m > 0,
            pb > 0,
    ;
    let j = (b - a) as nat;
    let p = pow2(j);
    if b >= a + 2 {
        vstd::arithmetic::power2::lemma_pow2_adds(a, j);
        lemma_pow2_pos(j);
    }
    if b >= a + 2 && q < 0x100_0000 * p {
        assert(q * m + r < 0x100_0000 * (p * m)) by (nonlinear_arith)
            requires
                q + 1 <= 0x100_0000 * p,
                r < m,
        ;
        assert(n1 < 0x100_0000 * d1) by (nonlinear_arith)
            requires
                q * m + r < 0x100_0000 * (p * m),
                n1 == (q * m + r) * pa,
                d1 == m * pb,
                pb == pa * p,
                pa > 0,
        ;
        assert(n2 < 0x100_0000 * d2) by (nonlinear_arith)
            requires
                2 * q + sticky < 0x200_0000 * p,
                n2 == (2 * q + sticky) * pa,
                d2 == 2 * pb,
                pb == pa * p,
                pa > 0,
        ;
        lemma_nearest_integer_sticky(q, m, r, j);
        assert(p * m > 0) by (nonlinear_arith)
            requires
                p > 0,
                m > 0,
        ;
        lemma_nearest_integer_scale(q * m + r, p * m, pa);
        lemma_nearest_integer_scale(2 * q + sticky, 2 * p, pa);
        assert(pa * (q * m + r) == n1) by (nonlinear_arith)
            requires
                n1 == (q * m + r) * pa,
        ;
        assert(pa * (p * m) == d1) by (nonlinear_arith)
            requires
                d1 == m * pb,
                pb == pa * p,
        ;
        assert(pa * (2 * q + sticky) == n2) by (nonlinear_arith)
            requires
                n2 == (2 * q + sticky) * pa,
        ;
        assert(pa * (2 * p) == d2) by (nonlinear_arith)
            requires
                d2 == 2 * pb,
                pb == pa * p,
        ;
    } else {
        if b >= a + 2 {
            assert(n1 >= 0x100_0000 * d1) by (nonlinear_arith)
                requires
                    q >= 0x100_0000 * p,
                    n1 == (q * m + r) * pa,
                    d1 == m * pb,
                    pb == pa * p,
                    pa > 0,
                    r >= 0,
                    m > 0,
            ;
            assert(n2 >= 0x100_0000 * d2) by (nonlinear_arith)
                requires
                    q >= 0x100_0000 * p,
                    n2 == (2 * q + sticky) * pa,
                    d2 == 2 * pb,
                    pb == pa * p,
                    pa > 0,
                    sticky >= 0,
            ;
        } else {
            assert(pb <= 2 * pa) by {
                lemma_pow2_unfold(a + 1);
                if b < a + 1 {
                    vstd::arithmetic::power2::lemma_pow2_strictly_increases(b, a + 1);
                }
            }
            assert(n1 >= 0x100_0000 * d1) by (nonlinear_arith)
                requires
                    q >= 0x400_0000,
                    n1 == (q * m + r) * pa,
                    d1 == m * pb,
                    pb <= 2 * pa,
                    pa > 0,
                    r >= 0,
                    m > 0,
            ;
            assert(n2 >= 0x100_0000 * d2) by (nonlinear_arith)
                requires
                    q >= 0x400_0000,
                    n2 == (2 * q + sticky) * pa,
                    d2 == 2 * pb,
                    pb <= 2 * pa,
                    pa > 0,
                    sticky >= 0,
            ;
        }
        lemma_pow2_unfold(b + 1);
        assert(m * pow2(b + 1) == 2 * d1) by (nonlinear_arith)
            requires
                d1 == m * pb,
                pow2(b + 1) == 2 * pb,
        ;
        lemma_nearest_magnitude_sticky(q, m, r, a, b + 1);
    }
}

/// A rounded fraction is off by at most half a unit or by two to the power -24
/// of itself.
pub proof fn lemma_nearest_magnitude_error(n: nat, d: nat)
    requires
        d > 0,
    ensures
        ({
            let off = nearest_magnitude(n, d) * d - n;
            ||| -d <= 2 * off <= d
            ||| -n <= 0x100_0000 * off <= n
        }),
    decreases n - d,
{
    if n < 0x100_0000 * d {
        let q = n / d;
        lemma_fundamental_div_mod(n as int, d as int);
        assert(q * d == d * q && (q + 1) * d == d * q + d) by (nonlinear_arith);
    } else {
        lemma_nearest_magnitude_error(n, 2 * d);
        let m = nearest_magnitude(n, 2 * d);
        assert((2 * m) * d == m * (2 * d)) by (nonlinear_arith);
    }
}

/// A rounded fraction is a significand, or the power of two above all of them,
/// times a power of two.
pub proof fn lemma_nearest_magnitude_form(n: nat, d: nat) -> (r: (nat, nat))
    requires
        d > 0,
    ensures
        r.0 <= 0x100_0000,
        nearest_magnitude(n, d) == r.0 * pow2(r.1),
    decreases n - d,
{
    vstd::arithmetic::power2::lemma2_to64();
    if n < 0x100_0000 * d {
        let q = n / d;
        lemma_fundamental_div_mod(n as int, d as int);
        assert(q < 0x100_0000) by (nonlinear_arith)
            requires
                n == d * q + n % d,
                n < 0x100_0000 * d,
                n % d >= 0,
                d > 0,
        ;
        let m = nearest_integer(n, d);
        assert(m * pow2(0) == m);
        (m, 0)
    } else {
        let (m, k) = lemma_nearest_magnitude_form(n, 2 * d);
        lemma_pow2_unfold(k + 1);
        assert(2 * (m * pow2(k)) == m * pow2(k + 1)) by (nonlinear_arith)
            requires
                pow2(k + 1) == 2 * pow2(k),
        ;
        (m, k + 1)
    }
}

/// Rounding keeps the order of fractions.
pub proof fn lemma_nearest_magnitude_monotonic(a: nat, b: nat, d: nat)
    requires
        d > 0,
        a <= b,
    ensures
        nearest_magnitude(a, d) <= nearest_magnitude(b, d),
    decreases b - d,
{
    if a >= 0x100_0000 * d {
        lemma_nearest_magnitude_monotonic(a, b, 2 * d);
    } else {
        let q = a / d;
        lemma_fundamental_div_mod(a as int, d as int);
        if b < 0x100_0000 * d {
            let t = b / d;
            lemma_fundamental_div_mod(b as int, d as int);
            assert(q < t || (q == t && a % d <= b % d)) by (nonlinear_arith)
                requires
                    a == d * q + a % d,
                    b == d * t + b % d,
                    a <= b,
                    a % d < d,
                    b % d < d,
                    d > 0,
            ;
        } else {
            vstd::arithmetic::power2::lemma2_to64();
            assert(q < 0x100_0000) by (nonlinear_arith)
                requires
                    a == d * q + a % d,
                    a < 0x100_0000 * d,
                    a % d >= 0,
                    d > 0,
            ;
            assert(b >= pow2(24) * d);
            lemma_nearest_magnitude_lower(b, d, 24);
        }
    }
}

} // verus!
