//! IEEE 754 single precision, carried as its bit pattern and computed with
//! integers.
use crate::rounding;
use vstd::arithmetic::power2::{lemma_pow2_pos, lemma_pow2_unfold, pow2};
use vstd::prelude::*;

verus! {

/// A single-precision number, held as the 32 bits of its IEEE 754 encoding.
///
/// `==` on this type compares encodings; [`Float32::equals`] compares numbers.
#[derive(Clone, Copy, Debug, PartialEq, Eq, Structural)]
pub struct Float32 {
    pub bits: u32,
}

/// What an encoding stands for. A finite number is a sign and a magnitude
/// counted in units of two to the power -149, the smallest positive single.
pub enum Value {
    Nan,
    Infinite { negative: bool },
    Finite { negative: bool, magnitude: nat },
}

/// The magnitude encoded by a biased exponent and a 23-bit fraction.
pub open spec fn magnitude_of(exponent: nat, fraction: nat) -> nat {
    if exponent == 0 {
        fraction
    } else {
        (fraction + 0x80_0000) * pow2((exponent - 1) as nat)
    }
}

impl View for Float32 {
    type V = Value;

    open spec fn view(&self) -> Value {
        let negative = self.bits >= 0x8000_0000;
        let exponent = (self.bits as nat / 0x80_0000) % 256;
        let fraction = self.bits as nat % 0x80_0000;
        if exponent == 255 {
            if fraction == 0 {
                Value::Infinite { negative }
            } else {
                Value::Nan
            }
        } else {
            Value::Finite { negative, magnitude: magnitude_of(exponent, fraction) }
        }
    }
}

impl Float32 {
    /// Whether this is the encoding that a computed value gets. Every value but
    /// the NaN has a single encoding.
    pub open spec fn encodes(self, v: Value) -> bool {
        self@ == v && (v is Nan ==> self.bits == 0x7fc0_0000)
    }

    /// The encoding that a computed value gets.
    pub open spec fn of(v: Value) -> Float32 {
        choose|f: Float32| f.encodes(v)
    }

    pub open spec fn sum(self, other: Float32) -> Float32 {
        Float32::of(self@.plus(other@))
    }

    pub open spec fn difference(self, other: Float32) -> Float32 {
        Float32::of(self@.minus(other@))
    }

    pub open spec fn product(self, other: Float32) -> Float32 {
        Float32::of(self@.times(other@))
    }

    pub open spec fn quotient(self, other: Float32) -> Float32 {
        Float32::of(self@.over(other@))
    }

    pub open spec fn maximum(self, other: Float32) -> Float32 {
        if self@ is Nan || self@.less(other@) {
            other
        } else {
            self
        }
    }

    pub open spec fn minimum(self, other: Float32) -> Float32 {
        if self@ is Nan || other@.less(self@) {
            other
        } else {
            self
        }
    }
}

/// The number of units in one.
pub open spec fn one() -> nat {
    pow2(149)
}

impl Value {
    /// The single nearest to `n / d` units, with the given sign; magnitudes
    /// beyond the largest exponent become infinite.
    pub open spec fn rounded(negative: bool, n: nat, d: nat) -> Value {
        let magnitude = rounding::nearest_magnitude(n, d);
        if magnitude < pow2(277) {
            Value::Finite { negative, magnitude }
        } else {
            Value::Infinite { negative }
        }
    }

    pub open spec fn zero() -> Value {
        Value::Finite { negative: false, magnitude: 0 }
    }

    /// The whole number `n` as the nearest single.
    pub open spec fn from_nat(n: nat) -> Value {
        Value::rounded(false, n * one(), 1)
    }

    pub open spec fn is_finite(self) -> bool {
        self is Finite
    }

    /// The number of units of a finite value.
    pub open spec fn units(self) -> int {
        if self->Finite_negative {
            -(self->Finite_magnitude as int)
        } else {
            self->Finite_magnitude as int
        }
    }

    pub open spec fn less(self, other: Value) -> bool {
        match (self, other) {
            (Value::Nan, _) => false,
            (_, Value::Nan) => false,
            (Value::Infinite { negative: n1 }, Value::Infinite { negative: n2 }) => n1 && !n2,
            (Value::Infinite { negative }, _) => negative,
            (_, Value::Infinite { negative }) => !negative,
            _ => self.units() < other.units(),
        }
    }

    pub open spec fn equals(self, other: Value) -> bool {
        match (self, other) {
            (Value::Infinite { negative: n1 }, Value::Infinite { negative: n2 }) => n1 == n2,
            (Value::Finite { .. }, Value::Finite { .. }) => self.units() == other.units(),
            _ => false,
        }
    }

    pub open spec fn at_most(self, other: Value) -> bool {
        self.less(other) || self.equals(other)
    }

    pub open spec fn negated(self) -> Value {
        match self {
            Value::Nan => Value::Nan,
            Value::Infinite { negative } => Value::Infinite { negative: !negative },
            Value::Finite { negative, magnitude } => Value::Finite {
                negative: !negative,
                magnitude,
            },
        }
    }

    pub open spec fn absolute(self) -> Value {
        match self {
            Value::Nan => Value::Nan,
            Value::Infinite { .. } => Value::Infinite { negative: false },
            Value::Finite { magnitude, .. } => Value::Finite { negative: false, magnitude },
        }
    }

    /// The larger of two numbers; a NaN yields to the other one.
    pub open spec fn larger(self, other: Value) -> Value {
        if self is Nan || self.less(other) {
            other
        } else {
            self
        }
    }

    /// The smaller of two numbers; a NaN yields to the other one.
    pub open spec fn smaller(self, other: Value) -> Value {
        if self is Nan || other.less(self) {
            other
        } else {
            self
        }
    }

    pub open spec fn clamped(self, low: Value, high: Value) -> Value {
        if self.less(low) {
            low
        } else if high.less(self) {
            high
        } else {
            self
        }
    }

    /// The exact sum, rounded once. An exact zero from operands of opposite
    /// sign is positive.
    #[verifier::opaque]
    pub open spec fn plus(self, other: Value) -> Value {
        match (self, other) {
            (Value::Nan, _) => Value::Nan,
            (_, Value::Nan) => Value::Nan,
            (Value::Infinite { negative: n1 }, Value::Infinite { negative: n2 }) => if n1 == n2 {
                self
            } else {
                Value::Nan
            },
            (Value::Infinite { .. }, _) => self,
            (_, Value::Infinite { .. }) => other,
            (
                Value::Finite { negative: n1, magnitude: m1 },
                Value::Finite { negative: n2, magnitude: m2 },
            ) => if n1 == n2 {
                Value::rounded(n1, m1 + m2, 1)
            } else if m1 > m2 {
                Value::rounded(n1, (m1 - m2) as nat, 1)
            } else if m2 > m1 {
                Value::rounded(n2, (m2 - m1) as nat, 1)
            } else {
                Value::zero()
            },
        }
    }

    pub open spec fn minus(self, other: Value) -> Value {
        self.plus(other.negated())
    }

    /// The exact product, rounded once.
    #[verifier::opaque]
    pub open spec fn times(self, other: Value) -> Value {
        match (self, other) {
            (Value::Nan, _) => Value::Nan,
            (_, Value::Nan) => Value::Nan,
            (Value::Infinite { negative: n1 }, Value::Infinite { negative: n2 }) => {
                Value::Infinite { negative: n1 != n2 }
            },
            (
                Value::Infinite { negative: n1 },
                Value::Finite { negative: n2, magnitude },
            ) => if magnitude == 0 {
                Value::Nan
            } else {
                Value::Infinite { negative: n1 != n2 }
            },
            (
                Value::Finite { negative: n1, magnitude },
                Value::Infinite { negative: n2 },
            ) => if magnitude == 0 {
                Value::Nan
            } else {
                Value::Infinite { negative: n1 != n2 }
            },
            (
                Value::Finite { negative: n1, magnitude: m1 },
                Value::Finite { negative: n2, magnitude: m2 },
            ) => Value::rounded(n1 != n2, m1 * m2, one()),
        }
    }

    /// The exact quotient, rounded once.
    #[verifier::opaque]
    pub open spec fn over(self, other: Value) -> Value {
        match (self, other) {
            (Value::Nan, _) => Value::Nan,
            (_, Value::Nan) => Value::Nan,
            (Value::Infinite { .. }, Value::Infinite { .. }) => Value::Nan,
            (Value::Infinite { negative: n1 }, Value::Finite { negative: n2, .. }) => {
                Value::Infinite { negative: n1 != n2 }
            },
            (Value::Finite { negative: n1, .. }, Value::Infinite { negative: n2 }) => {
                Value::Finite { negative: n1 != n2, magnitude: 0 }
            },
            (
                Value::Finite { negative: n1, magnitude: m1 },
                Value::Finite { negative: n2, magnitude: m2 },
            ) => if m2 == 0 {
                if m1 == 0 {
                    Value::Nan
                } else {
                    Value::Infinite { negative: n1 != n2 }
                }
            } else {
                Value::rounded(n1 != n2, m1 * one(), m2)
            },
        }
    }

    /// The largest whole number that is not above a finite value.
    pub open spec fn floor_int(self) -> int {
        self.units() / (one() as int)
    }

    /// The smallest whole number that is not below a finite value.
    pub open spec fn ceil_int(self) -> int {
        -((-self.units()) / (one() as int))
    }

    /// The whole number nearest to a finite value in the direction of zero.
    pub open spec fn truncated_int(self) -> int {
        if self->Finite_negative {
            -((self->Finite_magnitude / one()) as int)
        } else {
            (self->Finite_magnitude / one()) as int
        }
    }

    /// The whole number `n` as a value, with the sign kept from where it came.
    pub open spec fn whole(negative: bool, n: int) -> Value {
        Value::Finite { negative, magnitude: (if n < 0 { -n } else { n }) as nat * one() }
    }

    pub open spec fn floored(self) -> Value {
        match self {
            Value::Finite { negative, .. } => Value::whole(negative, self.floor_int()),
            _ => self,
        }
    }

    pub open spec fn ceiled(self) -> Value {
        match self {
            Value::Finite { negative, .. } => Value::whole(negative, self.ceil_int()),
            _ => self,
        }
    }

    /// Conversion to an integer between `low` and `high`: the fraction is
    /// dropped, out-of-range values saturate and a NaN becomes zero.
    pub open spec fn saturated(self, low: int, high: int) -> int {
        match self {
            Value::Nan => 0,
            Value::Infinite { negative } => if negative {
                low
            } else {
                high
            },
            Value::Finite { .. } => if self.truncated_int() < low {
                low
            } else if self.truncated_int() > high {
                high
            } else {
                self.truncated_int()
            },
        }
    }
}

/// The numerator of `n` times two to the power `e`.
pub open spec fn scaled_numerator(n: nat, e: int) -> nat {
    if e >= 0 {
        n * pow2(e as nat)
    } else {
        n
    }
}

/// The denominator of a number times two to the power `e`.
pub open spec fn scaled_denominator(e: int) -> nat {
    if e >= 0 {
        1
    } else {
        pow2((-e) as nat)
    }
}

pub(crate) proof fn lemma_pow2_add(a: nat, b: nat)
    ensures
        pow2(a + b) == pow2(a) * pow2(b),
{
    vstd::arithmetic::power2::lemma_pow2_adds(a, b);
}

pub(crate) proof fn lemma_pow2_below(a: nat, b: nat)
    requires
        a <= b,
    ensures
        pow2(a) <= pow2(b),
{
    if a < b {
        vstd::arithmetic::power2::lemma_pow2_strictly_increases(a, b);
    }
}

/// What `nearest_magnitude` is for `n` times two to the power `e`, once `n` has
/// been cut to at most 24 bits by `shift` halvings.
proof fn lemma_round_scaled(n: nat, e: int, shift: nat)
    requires
        n < 0x100_0000 * pow2(shift),
        shift + e >= 0,
        shift > 0 ==> (shift + e == 0 || n >= 0x100_0000 * pow2((shift - 1) as nat)),
    ensures
        rounding::nearest_magnitude(scaled_numerator(n, e), scaled_denominator(e))
            == rounding::nearest_integer(n, pow2(shift)) * pow2((shift + e) as nat),
{
    let k = (shift + e) as nat;
    vstd::arithmetic::power2::lemma2_to64();
    if shift == 0 {
        rounding::lemma_nearest_integer_parts(n, 1, n, 0);
        rounding::lemma_nearest_magnitude_exact(n, k);
    } else if e >= 0 {
        let p = pow2(e as nat);
        lemma_pow2_pos(e as nat);
        lemma_pow2_add(shift, e as nat);
        assert(n * p < 0x100_0000 * (pow2(k) * 1)) by (nonlinear_arith)
            requires
                n < 0x100_0000 * pow2(shift),
                pow2(k) == pow2(shift) * p,
                p > 0,
        ;
        if k > 0 {
            lemma_pow2_add((shift - 1) as nat, e as nat);
            assert(n * p >= 0x100_0000 * (pow2((k - 1) as nat) * 1)) by (nonlinear_arith)
                requires
                    n >= 0x100_0000 * pow2((shift - 1) as nat),
                    pow2((k - 1) as nat) == pow2((shift - 1) as nat) * p,
                    p > 0,
            ;
        }
        rounding::lemma_nearest_magnitude_at(n * p, 1, k);
        lemma_pow2_pos(shift);
        rounding::lemma_nearest_integer_scale(n, pow2(shift), p);
        assert(p * n == n * p) by (nonlinear_arith);
        assert(p * pow2(shift) == pow2(k) * 1) by (nonlinear_arith)
            requires
                pow2(k) == pow2(shift) * p,
        ;
        assert(pow2(k) * rounding::nearest_integer(n, pow2(shift)) == rounding::nearest_integer(
            n,
            pow2(shift),
        ) * pow2(k)) by (nonlinear_arith);
    } else {
        let d = pow2((-e) as nat);
        lemma_pow2_pos((-e) as nat);
        lemma_pow2_add(k, (-e) as nat);
        assert(pow2(shift) == pow2(k) * d);
        if k > 0 {
            lemma_pow2_add((k - 1) as nat, (-e) as nat);
        }
        rounding::lemma_nearest_magnitude_at(n, d, k);
        assert(pow2(k) * rounding::nearest_integer(n, pow2(shift)) == rounding::nearest_integer(
            n,
            pow2(shift),
        ) * pow2(k)) by (nonlinear_arith);
    }
}

/// The sign bit on its own.
fn sign_bit(negative: bool) -> (bits: u32)
    ensures
        bits == if negative {
            0x8000_0000u32
        } else {
            0u32
        },
{
    if negative {
        0x8000_0000
    } else {
        0
    }
}

/// Encodes `significand` times two to the power `scale` units.
fn encode(negative: bool, significand: u32, scale: u32) -> (r: Float32)
    requires
        significand <= 0x100_0000,
        scale <= 2000,
    ensures
        ({
            let magnitude = significand as nat * pow2(scale as nat);
            r@ == if magnitude < pow2(277) {
                Value::Finite { negative, magnitude }
            } else {
                Value::Infinite { negative }
            }
        }),
{
    let sign = sign_bit(negative);
    let ghost whole = significand as nat * pow2(scale as nat);
    if significand == 0 {
        proof {
            lemma_pow2_pos(277);
        }
        return Float32 { bits: sign };
    }
    let mut m: u32 = significand;
    let mut k: u32 = scale;
    if m == 0x100_0000 {
        m = 0x80_0000;
        k = k + 1;
        proof {
            lemma_pow2_unfold(k as nat);
            assert(0x80_0000 * pow2(k as nat) == whole) by (nonlinear_arith)
                requires
                    pow2(k as nat) == 2 * pow2(scale as nat),
                    whole == 0x100_0000 * pow2(scale as nat),
            ;
        }
    }
    while m < 0x80_0000 && k > 0
        invariant
            0 < m < 0x100_0000,
            k <= 2001,
            m as nat * pow2(k as nat) == whole,
        decreases k,
    {
        proof {
            lemma_pow2_unfold(k as nat);
            assert((2 * m) as nat * pow2((k - 1) as nat) == whole) by (nonlinear_arith)
                requires
                    pow2(k as nat) == 2 * pow2((k - 1) as nat),
                    m as nat * pow2(k as nat) == whole,
            ;
        }
        m = m * 2;
        k = k - 1;
    }
    if m < 0x80_0000 {
        proof {
            vstd::arithmetic::power2::lemma2_to64();
            lemma_pow2_below(24, 277);
        }
        return Float32 { bits: sign + m };
    }
    if k >= 254 {
        proof {
            lemma_pow2_add(23, 254);
            lemma_pow2_below(254, k as nat);
            vstd::arithmetic::power2::lemma2_to64();
            assert(whole >= 0x80_0000 * pow2(254)) by (nonlinear_arith)
                requires
                    m as nat * pow2(k as nat) == whole,
                    m >= 0x80_0000,
                    pow2(k as nat) >= pow2(254),
            ;
        }
        return Float32 { bits: sign + 0x7f80_0000 };
    }
    proof {
        lemma_pow2_add(24, 253);
        lemma_pow2_below(k as nat, 253);
        lemma_pow2_pos(253);
        vstd::arithmetic::power2::lemma2_to64();
        assert(whole < 0x100_0000 * pow2(253)) by (nonlinear_arith)
            requires
                m as nat * pow2(k as nat) == whole,
                m < 0x100_0000,
                pow2(k as nat) <= pow2(253),
                pow2(253) > 0,
        ;
    }
    let bits: u32 = (k + 1) * 0x80_0000 + (m - 0x80_0000);
    let r = Float32 { bits: sign + bits };
    assert((r.bits as nat / 0x80_0000) % 256 == k + 1);
    assert(r.bits as nat % 0x80_0000 == m - 0x80_0000);
    r
}

/// The single nearest to `n` times two to the power `e` units.
fn round_scaled(negative: bool, n: u64, e: i32) -> (r: Float32)
    requires
        -900 <= e <= 900,
    ensures
        r@ == Value::rounded(
            negative,
            scaled_numerator(n as nat, e as int),
            scaled_denominator(e as int),
        ),
{
    let mut q: u64 = n;
    let mut shift: u32 = 0;
    let mut half: bool = false;
    let mut below: bool = false;
    let ghost mut rest: nat = 0;
    proof {
        vstd::arithmetic::power2::lemma2_to64();
    }
    while q >= 0x100_0000 || (shift as i32) + e < 0
        invariant
            -900 <= e <= 900,
            shift <= 900,
            n as nat == q as nat * pow2(shift as nat) + rest,
            rest < pow2(shift as nat),
            half == (2 * rest >= pow2(shift as nat)),
            (half && !below) == (2 * rest == pow2(shift as nat)),
            (half || below) == (rest > 0),
            shift > 0 ==> (shift + e <= 0 || n >= 0x100_0000 * pow2((shift - 1) as nat)),
        decreases (if (shift as int) + e < 0 { -((shift as int) + e) } else { 0 }), q,
    {
        let ghost p = pow2(shift as nat);
        proof {
            lemma_pow2_unfold((shift + 1) as nat);
            lemma_pow2_pos(shift as nat);
            let q1 = q as nat / 2;
            let low = q as nat % 2;
            assert(q as nat * p + rest == q1 * (2 * p) + (low * p + rest)) by (nonlinear_arith)
                requires
                    q as nat == 2 * q1 + low,
            ;
            assert(low * p + rest < 2 * p) by (nonlinear_arith)
                requires
                    low <= 1,
                    rest < p,
            ;
            assert(low == 0 ==> low * p == 0) by (nonlinear_arith);
            assert(low == 1 ==> low * p == p) by (nonlinear_arith);
            if q >= 0x100_0000 && shift >= 64 {
                vstd::arithmetic::power2::lemma2_to64_rest();
                lemma_pow2_below(64, shift as nat);
                assert(q as nat * p >= p) by (nonlinear_arith)
                    requires
                        q >= 1,
                ;
                assert(false);
            }
            assert(q >= 0x100_0000 ==> n >= 0x100_0000 * p) by (nonlinear_arith)
                requires
                    n as nat == q as nat * p + rest,
            ;
            rest = low * p + rest;
        }
        below = half || below;
        half = q % 2 == 1;
        q = q / 2;
        shift = shift + 1;
    }
    let mut significand: u32 = q as u32;
    if half && (below || q % 2 == 1) {
        significand = significand + 1;
    }
    proof {
        lemma_pow2_pos(shift as nat);
        assert(n < 0x100_0000 * pow2(shift as nat)) by (nonlinear_arith)
            requires
                n as nat == q as nat * pow2(shift as nat) + rest,
                rest < pow2(shift as nat),
                q < 0x100_0000,
        ;
        rounding::lemma_nearest_integer_parts(
            n as nat,
            pow2(shift as nat),
            q as nat,
            rest,
        );
        lemma_round_scaled(n as nat, e as int, shift as nat);
    }
    encode(negative, significand, (shift as i32 + e) as u32)
}

/// The magnitude of an encoding without its sign bit.
#[verifier::opaque]
spec fn magnitude_at(bits: nat) -> nat {
    magnitude_of(bits / 0x80_0000, bits % 0x80_0000)
}

/// Encodings without a sign are ordered as the magnitudes they stand for.
proof fn lemma_magnitude_increases(a: nat, b: nat)
    requires
        a < b < 0x7f80_0000,
    ensures
        magnitude_at(a) < magnitude_at(b),
{
    reveal(magnitude_at);
    let ea = a / 0x80_0000;
    let eb = b / 0x80_0000;
    let fa = a % 0x80_0000;
    let fb = b % 0x80_0000;
    vstd::arithmetic::power2::lemma2_to64();
    if ea == eb {
        if ea > 0 {
            let p = pow2((ea - 1) as nat);
            lemma_pow2_pos((ea - 1) as nat);
            assert((fa + 0x80_0000) * p < (fb + 0x80_0000) * p) by (nonlinear_arith)
                requires
                    fa < fb,
                    p > 0,
            ;
        }
    } else if ea == 0 {
        let p = pow2((eb - 1) as nat);
        lemma_pow2_pos((eb - 1) as nat);
        assert((fb + 0x80_0000) * p >= 0x80_0000) by (nonlinear_arith)
            requires
                p >= 1,
        ;
    } else {
        let p = pow2((ea - 1) as nat);
        let r = pow2((eb - 1) as nat);
        lemma_pow2_pos((ea - 1) as nat);
        lemma_pow2_unfold(ea);
        lemma_pow2_below(ea, (eb - 1) as nat);
        assert((fa + 0x80_0000) * p < (fb + 0x80_0000) * r) by (nonlinear_arith)
            requires
                fa < 0x80_0000,
                r >= 2 * p,
                p > 0,
        ;
    }
}

/// An encoding as a number on one scale: the sign bit negates the rest.
spec fn key_of(bits: u32) -> int {
    if bits >= 0x8000_0000 {
        -(bits - 0x8000_0000)
    } else {
        bits as int
    }
}

/// The magnitudes are in the order of the encodings, and zero comes first.
proof fn lemma_magnitude_order(a: nat, b: nat)
    requires
        a < 0x7f80_0000,
        b < 0x7f80_0000,
    ensures
        (magnitude_at(a) < magnitude_at(b)) == (a < b),
        (magnitude_at(a) == magnitude_at(b)) == (a == b),
{
    if a < b {
        lemma_magnitude_increases(a, b);
    } else if b < a {
        lemma_magnitude_increases(b, a);
    }
}

/// An encoding that is no NaN, by its sign and the bits below it.
proof fn lemma_view_of(a: Float32)
    requires
        !(a@ is Nan),
    ensures
        ({
            let low = (a.bits % 0x8000_0000) as nat;
            let negative = a.bits >= 0x8000_0000;
            &&& low <= 0x7f80_0000
            &&& low < 0x7f80_0000 ==> a@ == (Value::Finite {
                negative,
                magnitude: magnitude_at(low),
            })
            &&& low == 0x7f80_0000 ==> a@ == (Value::Infinite { negative })
        }),
{
    reveal(magnitude_at);
    let low = (a.bits % 0x8000_0000) as nat;
    assert((a.bits as nat / 0x80_0000) % 256 == low / 0x80_0000);
    assert(a.bits as nat % 0x80_0000 == low % 0x80_0000);
}

/// The scale orders all encodings but the NaNs as the numbers they stand for.
proof fn lemma_key_order(a: Float32, b: Float32)
    requires
        !(a@ is Nan),
        !(b@ is Nan),
    ensures
        a@.less(b@) == (key_of(a.bits) < key_of(b.bits)),
        a@.equals(b@) == (key_of(a.bits) == key_of(b.bits)),
{
    let la = (a.bits % 0x8000_0000) as nat;
    let lb = (b.bits % 0x8000_0000) as nat;
    lemma_view_of(a);
    lemma_view_of(b);
    assert(magnitude_at(0) == 0) by {
        reveal(magnitude_at);
    }
    if la < 0x7f80_0000 {
        lemma_magnitude_order(0, la);
    }
    if lb < 0x7f80_0000 {
        lemma_magnitude_order(0, lb);
    }
    if la < 0x7f80_0000 && lb < 0x7f80_0000 {
        lemma_magnitude_order(la, lb);
        lemma_magnitude_order(lb, la);
    }
}

/// A value other than a NaN has a single encoding.
proof fn lemma_encoding_unique(a: Float32, b: Float32)
    requires
        a@ == b@,
        !(a@ is Nan),
    ensures
        a == b,
{
    lemma_view_of(a);
    lemma_view_of(b);
    let la = (a.bits % 0x8000_0000) as nat;
    let lb = (b.bits % 0x8000_0000) as nat;
    if la < 0x7f80_0000 && lb < 0x7f80_0000 {
        lemma_magnitude_order(la, lb);
    }
}

/// An encoding that fits a computed value is the one it gets.
pub proof fn lemma_encoding(f: Float32, v: Value)
    requires
        f.encodes(v),
    ensures
        f == Float32::of(v),
{
    let g = Float32::of(v);
    assert(g.encodes(v));
    if !(v is Nan) {
        lemma_encoding_unique(f, g);
    }
}

/// A number taken apart: the magnitude is `significand` times two to the power
/// `scale` units.
enum Parts {
    Nan,
    Infinite { negative: bool },
    Finite { negative: bool, significand: u32, scale: u32 },
}

impl Parts {
    spec fn describes(self, v: Value) -> bool {
        match self {
            Parts::Nan => v is Nan,
            Parts::Infinite { negative } => v == (Value::Infinite { negative }),
            Parts::Finite { negative, significand, scale } => {
                &&& v == (Value::Finite {
                    negative,
                    magnitude: significand as nat * pow2(scale as nat),
                })
                &&& significand < 0x100_0000
                &&& scale <= 253
                &&& scale > 0 ==> significand >= 0x80_0000
            },
        }
    }
}

impl Float32 {
    /// The number with this encoding.
    pub fn from_bits(bits: u32) -> (r: Float32)
        ensures
            r.bits == bits,
    {
        Float32 { bits }
    }

    /// The encoding of this number.
    pub fn to_bits(self) -> (bits: u32)
        ensures
            bits == self.bits,
    {
        self.bits
    }

    /// The single nearest to a whole number.
    pub fn from_u32(n: u32) -> (r: Float32)
        ensures
            r@ == Value::from_nat(n as nat),
            r == Float32::of(Value::from_nat(n as nat)),
    {
        let r = round_scaled(false, n as u64, 149);
        proof {
            lemma_encoding(r, Value::from_nat(n as nat));
        }
        r
    }

    /// A whole number that a significand holds exactly.
    pub fn whole(n: u32) -> (r: Float32)
        requires
            n <= 0x100_0000,
        ensures
            r@ == Value::whole(false, n as int),
    {
        encode_whole(false, n)
    }

    /// One half.
    pub fn half() -> (r: Float32)
        ensures
            r@ == (Value::Finite { negative: false, magnitude: pow2(148) }),
    {
        proof {
            vstd::arithmetic::power2::lemma2_to64();
            lemma_pow2_add(23, 125);
        }
        Float32 { bits: 0x3f00_0000 }
    }

    /// Positive zero.
    pub fn zero() -> (r: Float32)
        ensures
            r.bits == 0,
            r@ == Value::zero(),
    {
        Float32 { bits: 0 }
    }

    fn parts(self) -> (r: Parts)
        ensures
            r.describes(self@),
    {
        let negative = self.bits >= 0x8000_0000;
        let exponent: u32 = (self.bits / 0x80_0000) % 256;
        let fraction: u32 = self.bits % 0x80_0000;
        if exponent == 255 {
            if fraction == 0 {
                Parts::Infinite { negative }
            } else {
                Parts::Nan
            }
        } else if exponent == 0 {
            proof {
                vstd::arithmetic::power2::lemma2_to64();
                assert(fraction as nat * 1 == fraction as nat);
            }
            Parts::Finite { negative, significand: fraction, scale: 0 }
        } else {
            Parts::Finite { negative, significand: fraction + 0x80_0000, scale: exponent - 1 }
        }
    }

    pub fn is_nan(self) -> (r: bool)
        ensures
            r == self@ is Nan,
    {
        (self.bits / 0x80_0000) % 256 == 255 && self.bits % 0x80_0000 != 0
    }

    pub fn is_finite(self) -> (r: bool)
        ensures
            r == self@.is_finite(),
    {
        (self.bits / 0x80_0000) % 256 != 255
    }

    fn key(self) -> (r: i64)
        ensures
            r == key_of(self.bits),
    {
        if self.bits >= 0x8000_0000 {
            0 - ((self.bits - 0x8000_0000) as i64)
        } else {
            self.bits as i64
        }
    }

    /// Whether this number is below the other; false if either is a NaN.
    pub fn less(self, other: Float32) -> (r: bool)
        ensures
            r == self@.less(other@),
    {
        if self.is_nan() || other.is_nan() {
            return false;
        }
        proof {
            lemma_key_order(self, other);
        }
        self.key() < other.key()
    }

    /// Whether both are the same number: zeros of either sign are equal, a NaN
    /// equals nothing.
    pub fn equals(self, other: Float32) -> (r: bool)
        ensures
            r == self@.equals(other@),
    {
        if self.is_nan() || other.is_nan() {
            return false;
        }
        proof {
            lemma_key_order(self, other);
        }
        self.key() == other.key()
    }

    /// Whether this number is not above the other; false if either is a NaN.
    pub fn at_most(self, other: Float32) -> (r: bool)
        ensures
            r == self@.at_most(other@),
    {
        self.less(other) || self.equals(other)
    }

    /// The number with the opposite sign.
    pub fn negated(self) -> (r: Float32)
        ensures
            r@ == self@.negated(),
    {
        if self.bits >= 0x8000_0000 {
            Float32 { bits: self.bits - 0x8000_0000 }
        } else {
            Float32 { bits: self.bits + 0x8000_0000 }
        }
    }

    /// The number without its sign.
    pub fn absolute(self) -> (r: Float32)
        ensures
            r@ == self@.absolute(),
    {
        if self.bits >= 0x8000_0000 {
            Float32 { bits: self.bits - 0x8000_0000 }
        } else {
            self
        }
    }

    /// The larger of two numbers; a NaN yields to the other one.
    pub fn larger(self, other: Float32) -> (r: Float32)
        ensures
            r == self.maximum(other),
            r@ == self@.larger(other@),
    {
        if self.is_nan() || self.less(other) {
            other
        } else {
            self
        }
    }

    /// The smaller of two numbers; a NaN yields to the other one.
    pub fn smaller(self, other: Float32) -> (r: Float32)
        ensures
            r == self.minimum(other),
            r@ == self@.smaller(other@),
    {
        if self.is_nan() || other.less(self) {
            other
        } else {
            self
        }
    }

    /// The number moved into the range from `low` to `high`; a NaN stays.
    pub fn clamped(self, low: Float32, high: Float32) -> (r: Float32)
        requires
            low@.at_most(high@),
        ensures
            r@ == self@.clamped(low@, high@),
    {
        if self.less(low) {
            low
        } else if high.less(self) {
            high
        } else {
            self
        }
    }
}

/// `m` times two to the power `d`.
fn shifted(m: u32, d: u32) -> (r: u64)
    requires
        m < 0x100_0000,
        d <= 40,
    ensures
        r as nat == m as nat * pow2(d as nat),
{
    proof {
        vstd::arithmetic::power2::lemma2_to64();
        vstd::arithmetic::power2::lemma2_to64_rest();
        lemma_pow2_below(d as nat, 40);
        lemma_pow2_pos(d as nat);
        assert(m as nat * pow2(d as nat) < 0x100_0000 * pow2(40)) by (nonlinear_arith)
            requires
                m < 0x100_0000,
                0 < pow2(d as nat) <= pow2(40),
        ;
        vstd::bits::lemma_u64_shl_is_mul(m as u64, d as u64);
    }
    (m as u64) << (d as u64)
}

/// The sum of two finite numbers, the first with the larger scale.
fn add_scaled(n1: bool, m1: u32, s1: u32, n2: bool, m2: u32, s2: u32) -> (r: Float32)
    requires
        m1 < 0x100_0000,
        m2 < 0x100_0000,
        s2 <= s1 <= 253,
        s1 > 0 ==> m1 >= 0x80_0000,
    ensures
        r@ == (Value::Finite {
            negative: n1,
            magnitude: m1 as nat * pow2(s1 as nat),
        }).plus(Value::Finite { negative: n2, magnitude: m2 as nat * pow2(s2 as nat) }),
{
    proof {
        reveal(Value::plus);
    }
    let d: u32 = s1 - s2;
    let ghost p = pow2(s2 as nat);
    let ghost large = m1 as nat * pow2(s1 as nat);
    let ghost small = m2 as nat * p;
    proof {
        lemma_pow2_add(d as nat, s2 as nat);
        lemma_pow2_pos(s2 as nat);
    }
    if d >= 32 {
        proof {
            lemma_pow2_add(24, (s1 - 32) as nat);
            lemma_pow2_below(s2 as nat, (s1 - 32) as nat);
            lemma_pow2_below((s1 - 8) as nat, (s1 - 2) as nat);
            vstd::arithmetic::power2::lemma2_to64();
            assert(small < 0x100_0000 * p) by (nonlinear_arith)
                requires
                    small == m2 as nat * p,
                    m2 < 0x100_0000,
                    p > 0,
            ;
            rounding::lemma_nearest_magnitude_absorbs(m1 as nat, s1 as nat, small);
            lemma_pow2_below(s1 as nat, 253);
            lemma_pow2_pos(s1 as nat);
            lemma_pow2_add(24, 253);
            assert(large < 0x100_0000 * pow2(253)) by (nonlinear_arith)
                requires
                    large == m1 as nat * pow2(s1 as nat),
                    m1 < 0x100_0000,
                    pow2(s1 as nat) <= pow2(253),
                    pow2(s1 as nat) > 0,
            ;
            assert(large > small) by {
                lemma_pow2_below((s1 - 2) as nat, s1 as nat);
                assert(large >= pow2(s1 as nat)) by (nonlinear_arith)
                    requires
                        large == m1 as nat * pow2(s1 as nat),
                        m1 >= 1,
                ;
            }
        }
        return encode(n1, m1, s1);
    }
    let a: u64 = shifted(m1, d);
    let b: u64 = m2 as u64;
    proof {
        lemma_pow2_below(d as nat, 32);
        vstd::arithmetic::power2::lemma2_to64();
        assert(a < 0x100_0000_0000_0000) by (nonlinear_arith)
            requires
                a as nat == m1 as nat * pow2(d as nat),
                m1 < 0x100_0000,
                pow2(d as nat) <= 0x1_0000_0000,
        ;
        assert(large == a as nat * p) by (nonlinear_arith)
            requires
                large == m1 as nat * pow2(s1 as nat),
                a as nat == m1 as nat * pow2(d as nat),
                pow2(s1 as nat) == pow2(d as nat) * p,
        ;
        assert((a + b) as nat * p == large + small) by (nonlinear_arith)
            requires
                large == a as nat * p,
                small == b as nat * p,
        ;
        assert((a > b) == (large > small)) by (nonlinear_arith)
            requires
                large == a as nat * p,
                small == b as nat * p,
                p > 0,
        ;
        assert((a < b) == (large < small)) by (nonlinear_arith)
            requires
                large == a as nat * p,
                small == b as nat * p,
                p > 0,
        ;
        assert((a - b) * p == large - small) by (nonlinear_arith)
            requires
                large == a as nat * p,
                small == b as nat * p,
        ;
        assert((b - a) * p == small - large) by (nonlinear_arith)
            requires
                large == a as nat * p,
                small == b as nat * p,
        ;
    }
    if n1 == n2 {
        round_scaled(n1, a + b, s2 as i32)
    } else if a > b {
        round_scaled(n1, a - b, s2 as i32)
    } else if a < b {
        round_scaled(n2, b - a, s2 as i32)
    } else {
        Float32 { bits: 0 }
    }
}

proof fn lemma_plus_commutes(a: Value, b: Value)
    ensures
        a.plus(b) == b.plus(a),
{
    reveal(Value::plus);
}

impl Float32 {
    fn nan() -> (r: Float32)
        ensures
            r.encodes(Value::Nan),
    {
        Float32 { bits: 0x7fc0_0000 }
    }

    fn infinite(negative: bool) -> (r: Float32)
        ensures
            r@ == (Value::Infinite { negative }),
    {
        Float32 { bits: sign_bit(negative) + 0x7f80_0000 }
    }

    /// The sum of two numbers.
    pub fn plus(self, other: Float32) -> (r: Float32)
        ensures
            r@ == self@.plus(other@),
            r == self.sum(other),
    {
        let r = self.plus_inner(other);
        proof {
            lemma_encoding(r, self@.plus(other@));
        }
        r
    }

    fn plus_inner(self, other: Float32) -> (r: Float32)
        ensures
            r.encodes(self@.plus(other@)),
    {
        proof {
            reveal(Value::plus);
        }
        match (self.parts(), other.parts()) {
            (Parts::Nan, _) => Float32::nan(),
            (_, Parts::Nan) => Float32::nan(),
            (Parts::Infinite { negative: n1 }, Parts::Infinite { negative: n2 }) => if n1 == n2 {
                self
            } else {
                Float32::nan()
            },
            (Parts::Infinite { .. }, Parts::Finite { .. }) => self,
            (Parts::Finite { .. }, Parts::Infinite { .. }) => other,
            (
                Parts::Finite { negative: n1, significand: m1, scale: s1 },
                Parts::Finite { negative: n2, significand: m2, scale: s2 },
            ) => if s1 >= s2 {
                add_scaled(n1, m1, s1, n2, m2, s2)
            } else {
                proof {
                    lemma_plus_commutes(self@, other@);
                }
                add_scaled(n2, m2, s2, n1, m1, s1)
            },
        }
    }

    /// The difference of two numbers.
    pub fn minus(self, other: Float32) -> (r: Float32)
        ensures
            r@ == self@.minus(other@),
            r == self.difference(other),
    {
        self.plus(other.negated())
    }

    /// The product of two numbers.
    pub fn times(self, other: Float32) -> (r: Float32)
        ensures
            r@ == self@.times(other@),
            r == self.product(other),
    {
        let r = self.times_inner(other);
        proof {
            lemma_encoding(r, self@.times(other@));
        }
        r
    }

    fn times_inner(self, other: Float32) -> (r: Float32)
        ensures
            r.encodes(self@.times(other@)),
    {
        proof {
            reveal(Value::times);
        }
        match (self.parts(), other.parts()) {
            (Parts::Nan, _) => Float32::nan(),
            (_, Parts::Nan) => Float32::nan(),
            (Parts::Infinite { negative: n1 }, Parts::Infinite { negative: n2 }) => {
                Float32::infinite(n1 != n2)
            },
            (
                Parts::Infinite { negative: n1 },
                Parts::Finite { negative: n2, significand, scale },
            ) => {
                proof {
                    lemma_zero_product(significand as nat, scale as nat);
                }
                if significand == 0 {
                    Float32::nan()
                } else {
                    Float32::infinite(n1 != n2)
                }
            },
            (
                Parts::Finite { negative: n1, significand, scale },
                Parts::Infinite { negative: n2 },
            ) => {
                proof {
                    lemma_zero_product(significand as nat, scale as nat);
                }
                if significand == 0 {
                    Float32::nan()
                } else {
                    Float32::infinite(n1 != n2)
                }
            },
            (
                Parts::Finite { negative: n1, significand: m1, scale: s1 },
                Parts::Finite { negative: n2, significand: m2, scale: s2 },
            ) => {
                let e: i32 = (s1 + s2) as i32 - 149;
                assert(m1 as nat * m2 as nat <= 0x100_0000 * 0x100_0000) by (nonlinear_arith)
                    requires
                        m1 < 0x100_0000,
                        m2 < 0x100_0000,
                ;
                let n: u64 = m1 as u64 * m2 as u64;
                proof {
                    lemma_pow2_add(s1 as nat, s2 as nat);
                    let product = (m1 as nat * pow2(s1 as nat)) * (m2 as nat * pow2(s2 as nat));
                    assert(product == n as nat * pow2((s1 + s2) as nat)) by (nonlinear_arith)
                        requires
                            product == (m1 as nat * pow2(s1 as nat)) * (m2 as nat * pow2(
                                s2 as nat,
                            )),
                            n as nat == m1 as nat * m2 as nat,
                            pow2((s1 + s2) as nat) == pow2(s1 as nat) * pow2(s2 as nat),
                    ;
                    lemma_scaled_ratio(n as nat, (s1 + s2) as nat, 149);
                }
                round_scaled(n1 != n2, n, e)
            },
        }
    }
}

proof fn lemma_zero_product(m: nat, k: nat)
    ensures
        (m * pow2(k) == 0) == (m == 0),
{
    lemma_pow2_pos(k);
    assert((m * pow2(k) == 0) == (m == 0)) by (nonlinear_arith)
        requires
            pow2(k) > 0,
    ;
}

/// A ratio of powers of two, written with a single exponent.
proof fn lemma_scaled_ratio(n: nat, a: nat, b: nat)
    ensures
        rounding::nearest_magnitude(n * pow2(a), pow2(b)) == rounding::nearest_magnitude(
            scaled_numerator(n, a - b),
            scaled_denominator(a - b),
        ),
{
    vstd::arithmetic::power2::lemma2_to64();
    lemma_pow2_pos(a);
    lemma_pow2_pos(b);
    if a >= b {
        let c = (a - b) as nat;
        lemma_pow2_add(b, c);
        rounding::lemma_nearest_magnitude_scale(n * pow2(c), 1, pow2(b));
        assert(pow2(b) * (n * pow2(c)) == n * pow2(a)) by (nonlinear_arith)
            requires
                pow2(a) == pow2(b) * pow2(c),
        ;
        assert(pow2(b) * 1 == pow2(b));
    } else {
        let c = (b - a) as nat;
        lemma_pow2_add(a, c);
        lemma_pow2_pos(c);
        rounding::lemma_nearest_magnitude_scale(n, pow2(c), pow2(a));
        assert(pow2(a) * n == n * pow2(a)) by (nonlinear_arith);
    }
}

/// The quotient of two finite numbers, both not zero.
fn divide_scaled(negative: bool, m1: u32, s1: u32, m2: u32, s2: u32) -> (r: Float32)
    requires
        0 < m1 < 0x100_0000,
        0 < m2 < 0x100_0000,
        s1 <= 253,
        s2 <= 253,
    ensures
        r@ == Value::rounded(
            negative,
            (m1 as nat * pow2(s1 as nat)) * one(),
            m2 as nat * pow2(s2 as nat),
        ),
{
    let mut m: u32 = m1;
    let mut z: u32 = 0;
    proof {
        vstd::arithmetic::power2::lemma2_to64();
    }
    while m < 0x80_0000
        invariant
            0 < m < 0x100_0000,
            m as nat == m1 as nat * pow2(z as nat),
            z <= 23,
            pow2(z as nat) <= m,
            0 < m1,
        decreases 0x100_0000 - m,
    {
        proof {
            vstd::arithmetic::power2::lemma2_to64();
            if z == 23 {
                assert(false);
            }
            lemma_pow2_unfold((z + 1) as nat);
            assert((2 * m) as nat == m1 as nat * pow2((z + 1) as nat)) by (nonlinear_arith)
                requires
                    m as nat == m1 as nat * pow2(z as nat),
                    pow2((z + 1) as nat) == 2 * pow2(z as nat),
            ;
        }
        m = m * 2;
        z = z + 1;
    }
    let top: u64 = shifted(m, 32);
    let q: u64 = top / (m2 as u64);
    let rest: u64 = top % (m2 as u64);
    let sticky: u64 = if rest > 0 {
        1
    } else {
        0
    };
    let e: i32 = (s1 as i32 + 149) - (s2 as i32 + z as i32 + 32) - 1;
    proof {
        vstd::arithmetic::power2::lemma2_to64();
        vstd::arithmetic::div_mod::lemma_fundamental_div_mod(top as int, m2 as int);
        assert(top as nat == q as nat * m2 as nat + rest as nat) by (nonlinear_arith)
            requires
                top as int == (m2 as int) * (q as int) + rest as int,
        ;
        assert(q >= 0x400_0000) by (nonlinear_arith)
            requires
                top as nat == q as nat * m2 as nat + rest as nat,
                rest < m2,
                m2 < 0x100_0000,
                top >= 0x80_0000 * 0x1_0000_0000,
        ;
        assert(q <= top) by (nonlinear_arith)
            requires
                top as nat == q as nat * m2 as nat + rest as nat,
                m2 >= 1,
        ;
        let a = (s1 + 149) as nat;
        let b = (s2 + z + 32) as nat;
        rounding::lemma_nearest_magnitude_sticky(q as nat, m2 as nat, rest as nat, a, b);
        let n = (m1 as nat * pow2(s1 as nat)) * one();
        let d = m2 as nat * pow2(s2 as nat);
        let c = pow2((z + 32) as nat);
        lemma_pow2_pos((z + 32) as nat);
        lemma_pow2_pos(s2 as nat);
        lemma_pow2_add(s1 as nat, 149);
        lemma_pow2_add(s2 as nat, (z + 32) as nat);
        lemma_pow2_add(z as nat, 32);
        assert(d > 0) by (nonlinear_arith)
            requires
                d == m2 as nat * pow2(s2 as nat),
                m2 > 0,
                pow2(s2 as nat) > 0,
        ;
        rounding::lemma_nearest_magnitude_scale(n, d, c);
        let p149 = pow2(149);
        assert(c * n == (top as nat) * pow2(a)) by (nonlinear_arith)
            requires
                n == (m1 as nat * pow2(s1 as nat)) * p149,
                pow2(a) == pow2(s1 as nat) * p149,
                c == pow2(z as nat) * pow2(32),
                top as nat == m as nat * pow2(32),
                m as nat == m1 as nat * pow2(z as nat),
        ;
        assert(c * d == m2 as nat * pow2(b)) by (nonlinear_arith)
            requires
                d == m2 as nat * pow2(s2 as nat),
                pow2(b) == pow2(s2 as nat) * c,
        ;
        lemma_pow2_unfold(b + 1);
        lemma_scaled_ratio((2 * q + sticky) as nat, a, b + 1);
    }
    round_scaled(negative, 2 * q + sticky, e)
}

/// The whole part of a magnitude below two to the power 24, and whether that
/// is all of it.
fn whole_part(significand: u32, scale: u32) -> (r: (u32, bool))
    requires
        significand < 0x100_0000,
        scale < 149,
    ensures
        r.0 < 0x100_0000,
        r.0 as nat == (significand as nat * pow2(scale as nat)) / one(),
        r.1 == ((significand as nat * pow2(scale as nat)) % one() == 0),
{
    let t: u32 = 149 - scale;
    let ghost p = pow2(scale as nat);
    let ghost c = pow2(t as nat);
    let ghost n = significand as nat * p;
    proof {
        lemma_pow2_add(t as nat, scale as nat);
        lemma_pow2_pos(scale as nat);
        lemma_pow2_pos(t as nat);
        assert(one() == c * p);
    }
    if t >= 24 {
        proof {
            vstd::arithmetic::power2::lemma2_to64();
            lemma_pow2_below(24, t as nat);
            assert(n < one()) by (nonlinear_arith)
                requires
                    n == significand as nat * p,
                    one() == c * p,
                    significand < c,
                    p > 0,
            ;
            vstd::arithmetic::div_mod::lemma_fundamental_div_mod_converse(
                n as int,
                one() as int,
                0,
                n as int,
            );
            lemma_zero_product(significand as nat, scale as nat);
        }
        return (0, significand == 0);
    }
    let divisor: u64 = shifted(1, t);
    let q: u64 = (significand as u64) / divisor;
    let rest: u64 = (significand as u64) % divisor;
    proof {
        assert(divisor as nat == c) by (nonlinear_arith)
            requires
                divisor as nat == 1 * c,
        ;
        vstd::arithmetic::div_mod::lemma_fundamental_div_mod(significand as int, divisor as int);
        assert(n == q as nat * one() + rest as nat * p) by (nonlinear_arith)
            requires
                n == significand as nat * p,
                one() == c * p,
                divisor as nat == c,
                significand as int == (divisor as int) * (q as int) + rest as int,
        ;
        assert(rest as nat * p < one()) by (nonlinear_arith)
            requires
                one() == c * p,
                rest < c,
                p > 0,
        ;
        vstd::arithmetic::div_mod::lemma_fundamental_div_mod_converse(
            n as int,
            one() as int,
            q as int,
            (rest as nat * p) as int,
        );
        lemma_zero_product(rest as nat, scale as nat);
        assert(q <= significand) by (nonlinear_arith)
            requires
                significand as int == (divisor as int) * (q as int) + rest as int,
                divisor >= 1,
        ;
    }
    (q as u32, rest == 0)
}

/// A magnitude with a large scale is a whole number.
proof fn lemma_whole_scale(significand: nat, scale: nat)
    requires
        scale >= 149,
    ensures
        (significand * pow2(scale)) / one() == significand * pow2((scale - 149) as nat),
        (significand * pow2(scale)) % one() == 0,
{
    let c = pow2((scale - 149) as nat);
    lemma_pow2_add((scale - 149) as nat, 149);
    lemma_pow2_pos(149);
    let n = significand * pow2(scale);
    assert(n == (significand * c) * one() + 0) by (nonlinear_arith)
        requires
            n == significand * pow2(scale),
            pow2(scale) == c * one(),
    ;
    vstd::arithmetic::div_mod::lemma_fundamental_div_mod_converse(
        n as int,
        one() as int,
        (significand * c) as int,
        0,
    );
}

/// Floor and ceiling of a number by its whole part and whether that is all.
proof fn lemma_floor_ceil(negative: bool, magnitude: nat)
    ensures
        ({
            let v = Value::Finite { negative, magnitude };
            let whole = (magnitude / one()) as int;
            let above = if magnitude % one() == 0 {
                whole
            } else {
                whole + 1
            };
            &&& v.floor_int() == if negative {
                -above
            } else {
                whole
            }
            &&& v.ceil_int() == if negative {
                -whole
            } else {
                above
            }
        }),
{
    lemma_pow2_pos(149);
    let u = one() as int;
    let q = (magnitude / one()) as int;
    let r = (magnitude % one()) as int;
    vstd::arithmetic::div_mod::lemma_fundamental_div_mod(magnitude as int, u);
    assert(magnitude as int == u * q + r);
    if r == 0 {
        assert(-(magnitude as int) == (-q) * u + 0) by (nonlinear_arith)
            requires
                magnitude as int == u * q + r,
                r == 0,
        ;
        vstd::arithmetic::div_mod::lemma_fundamental_div_mod_converse(
            -(magnitude as int),
            u,
            -q,
            0,
        );
    } else {
        assert(-(magnitude as int) == (-q - 1) * u + (u - r)) by (nonlinear_arith)
            requires
                magnitude as int == u * q + r,
        ;
        vstd::arithmetic::div_mod::lemma_fundamental_div_mod_converse(
            -(magnitude as int),
            u,
            -q - 1,
            u - r,
        );
    }
}

/// Small whole numbers need no rounding.
fn encode_whole(negative: bool, n: u32) -> (r: Float32)
    requires
        n <= 0x100_0000,
    ensures
        r@ == (Value::Finite { negative, magnitude: n as nat * one() }),
{
    proof {
        vstd::arithmetic::power2::lemma2_to64();
        lemma_pow2_add(25, 149);
        lemma_pow2_below(174, 277);
        lemma_pow2_pos(149);
        assert(n as nat * one() < 0x200_0000 * one()) by (nonlinear_arith)
            requires
                n < 0x200_0000,
                one() > 0,
        ;
    }
    encode(negative, n, 149)
}

impl Float32 {
    /// The quotient of two numbers.
    pub fn over(self, other: Float32) -> (r: Float32)
        ensures
            r@ == self@.over(other@),
            r == self.quotient(other),
    {
        let r = self.over_inner(other);
        proof {
            lemma_encoding(r, self@.over(other@));
        }
        r
    }

    fn over_inner(self, other: Float32) -> (r: Float32)
        ensures
            r.encodes(self@.over(other@)),
    {
        proof {
            reveal(Value::over);
        }
        match (self.parts(), other.parts()) {
            (Parts::Nan, _) => Float32::nan(),
            (_, Parts::Nan) => Float32::nan(),
            (Parts::Infinite { .. }, Parts::Infinite { .. }) => Float32::nan(),
            (Parts::Infinite { negative: n1 }, Parts::Finite { negative: n2, .. }) => {
                Float32::infinite(n1 != n2)
            },
            (Parts::Finite { negative: n1, .. }, Parts::Infinite { negative: n2 }) => {
                Float32 { bits: sign_bit(n1 != n2) }
            },
            (
                Parts::Finite { negative: n1, significand: m1, scale: s1 },
                Parts::Finite { negative: n2, significand: m2, scale: s2 },
            ) => {
                proof {
                    lemma_zero_product(m1 as nat, s1 as nat);
                    lemma_zero_product(m2 as nat, s2 as nat);
                }
                if m2 == 0 {
                    if m1 == 0 {
                        Float32::nan()
                    } else {
                        Float32::infinite(n1 != n2)
                    }
                } else if m1 == 0 {
                    proof {
                        lemma_pow2_pos(277);
                        assert(0 * one() == 0);
                        let d = m2 as nat * pow2(s2 as nat);
                        rounding::lemma_nearest_integer_parts(0, d, 0, 0);
                    }
                    Float32 { bits: sign_bit(n1 != n2) }
                } else {
                    divide_scaled(n1 != n2, m1, s1, m2, s2)
                }
            },
        }
    }

    /// The largest whole number that is not above this one.
    pub fn floored(self) -> (r: Float32)
        ensures
            r@ == self@.floored(),
    {
        match self.parts() {
            Parts::Finite { negative, significand, scale } => {
                proof {
                    lemma_floor_ceil(negative, significand as nat * pow2(scale as nat));
                }
                if scale >= 149 {
                    proof {
                        lemma_whole_scale(significand as nat, scale as nat);
                        lemma_whole_magnitude(significand as nat * pow2(scale as nat));
                    }
                    self
                } else {
                    let (whole, exact) = whole_part(significand, scale);
                    if negative && !exact {
                        encode_whole(negative, whole + 1)
                    } else {
                        encode_whole(negative, whole)
                    }
                }
            },
            _ => self,
        }
    }

    /// The smallest whole number that is not below this one.
    pub fn ceiled(self) -> (r: Float32)
        ensures
            r@ == self@.ceiled(),
    {
        match self.parts() {
            Parts::Finite { negative, significand, scale } => {
                proof {
                    lemma_floor_ceil(negative, significand as nat * pow2(scale as nat));
                }
                if scale >= 149 {
                    proof {
                        lemma_whole_scale(significand as nat, scale as nat);
                        lemma_whole_magnitude(significand as nat * pow2(scale as nat));
                    }
                    self
                } else {
                    let (whole, exact) = whole_part(significand, scale);
                    if !negative && !exact {
                        encode_whole(negative, whole + 1)
                    } else {
                        encode_whole(negative, whole)
                    }
                }
            },
            _ => self,
        }
    }

    /// The whole part of a finite magnitude, at most two to the power 63.
    fn whole_magnitude(significand: u32, scale: u32) -> (r: u64)
        requires
            significand < 0x100_0000,
            scale <= 253,
            scale > 0 ==> significand >= 0x80_0000,
        ensures
            ({
                let whole = (significand as nat * pow2(scale as nat)) / one();
                r as nat == if whole < 0x8000_0000_0000_0000 {
                    whole
                } else {
                    0x8000_0000_0000_0000
                }
            }),
    {
        if scale < 149 {
            whole_part(significand, scale).0 as u64
        } else {
            let d: u32 = scale - 149;
            proof {
                lemma_whole_scale(significand as nat, scale as nat);
                vstd::arithmetic::power2::lemma2_to64();
                vstd::arithmetic::power2::lemma2_to64_rest();
            }
            if d >= 40 {
                proof {
                    lemma_pow2_below(40, d as nat);
                    assert(significand as nat * pow2(d as nat) >= 0x80_0000 * pow2(40))
                        by (nonlinear_arith)
                        requires
                            significand >= 0x80_0000,
                            pow2(d as nat) >= pow2(40),
                    ;
                }
                0x8000_0000_0000_0000
            } else {
                proof {
                    lemma_pow2_below(d as nat, 39);
                    lemma_pow2_pos(d as nat);
                    assert(significand as nat * pow2(d as nat) < 0x100_0000 * pow2(39))
                        by (nonlinear_arith)
                        requires
                            significand < 0x100_0000,
                            0 < pow2(d as nat) <= pow2(39),
                    ;
                }
                shifted(significand, d)
            }
        }
    }

    /// Conversion to an unsigned 32-bit integer.
    pub fn to_u32(self) -> (r: u32)
        ensures
            r == self@.saturated(0, u32::MAX as int),
    {
        match self.parts() {
            Parts::Nan => 0,
            Parts::Infinite { negative } => if negative {
                0
            } else {
                u32::MAX
            },
            Parts::Finite { negative, significand, scale } => {
                let whole = Float32::whole_magnitude(significand, scale);
                if negative {
                    0
                } else if whole > u32::MAX as u64 {
                    u32::MAX
                } else {
                    whole as u32
                }
            },
        }
    }

    /// Conversion to a signed 64-bit integer.
    pub fn to_i64(self) -> (r: i64)
        ensures
            r == self@.saturated(i64::MIN as int, i64::MAX as int),
    {
        match self.parts() {
            Parts::Nan => 0,
            Parts::Infinite { negative } => if negative {
                i64::MIN
            } else {
                i64::MAX
            },
            Parts::Finite { negative, significand, scale } => {
                let whole = Float32::whole_magnitude(significand, scale);
                if negative {
                    if whole > i64::MAX as u64 {
                        i64::MIN
                    } else {
                        0 - (whole as i64)
                    }
                } else if whole > i64::MAX as u64 {
                    i64::MAX
                } else {
                    whole as i64
                }
            },
        }
    }
}

proof fn lemma_whole_magnitude(magnitude: nat)
    requires
        magnitude % one() == 0,
    ensures
        (magnitude / one()) * one() == magnitude,
{
    lemma_pow2_pos(149);
    vstd::arithmetic::div_mod::lemma_fundamental_div_mod(magnitude as int, one() as int);
    assert((magnitude / one()) * one() == one() * (magnitude / one())) by (nonlinear_arith);
}

/// A whole number that fits a significand is itself.
pub proof fn lemma_from_nat_exact(n: nat)
    requires
        n <= 0x100_0000,
    ensures
        Value::from_nat(n) == Value::whole(false, n as int),
{
    vstd::arithmetic::power2::lemma2_to64();
    lemma_pow2_add(25, 149);
    lemma_pow2_below(174, 277);
    lemma_pow2_pos(149);
    assert(n * one() < 0x200_0000 * one()) by (nonlinear_arith)
        requires
            n < 0x200_0000,
            one() > 0,
    ;
    if n < 0x100_0000 {
        rounding::lemma_nearest_magnitude_exact(n, 149);
    } else {
        rounding::lemma_nearest_magnitude_exact(1, 173);
        lemma_pow2_add(24, 149);
        assert(1 * pow2(173) == n * one());
    }
}

/// A larger whole number rounds to nothing smaller than what fits.
pub proof fn lemma_from_nat_large(n: nat)
    requires
        0x100_0000 <= n <= u32::MAX,
    ensures
        Value::from_nat(n) is Finite,
        !Value::from_nat(n)->Finite_negative,
        Value::from_nat(n).units() >= 0x100_0000 * one(),
{
    vstd::arithmetic::power2::lemma2_to64();
    lemma_pow2_pos(149);
    lemma_pow2_add(24, 149);
    lemma_pow2_add(32, 149);
    lemma_pow2_below(182, 277);
    lemma_pow2_unfold(182);
    assert(n * one() >= 0x100_0000 * one()) by (nonlinear_arith)
        requires
            n >= 0x100_0000,
    ;
    assert(n * one() <= 0x1_0000_0000 * one()) by (nonlinear_arith)
        requires
            n <= 0x1_0000_0000,
    ;
    assert(pow2(173) * 1 == pow2(173) && pow2(181) * 1 == pow2(181));
    rounding::lemma_nearest_magnitude_lower(n * one(), 1, 173);
    rounding::lemma_nearest_magnitude_upper(n * one(), 1, 181);
}

impl Value {
    /// A number that is not above `bound` units; minus infinity is one.
    pub open spec fn bounded_above(self, bound: int) -> bool {
        match self {
            Value::Nan => false,
            Value::Infinite { negative } => negative,
            Value::Finite { .. } => self.units() <= bound,
        }
    }
}

/// A sum is not above a power of two that bounds the exact sum.
pub proof fn lemma_plus_bounded(a: Value, b: Value, k: nat)
    requires
        k < 277,
        a is Finite,
        b is Finite || b == (Value::Infinite { negative: true }),
        b is Finite ==> a.units() + b.units() <= pow2(k),
    ensures
        a.plus(b).bounded_above(pow2(k) as int),
{
    reveal(Value::plus);
    lemma_pow2_pos(k);
    if b is Finite {
        let m1 = a->Finite_magnitude;
        let m2 = b->Finite_magnitude;
        assert(pow2(k) * 1 == pow2(k));
        let n: nat = if a->Finite_negative == b->Finite_negative {
            m1 + m2
        } else if m1 > m2 {
            (m1 - m2) as nat
        } else {
            (m2 - m1) as nat
        };
        if n <= pow2(k) {
            rounding::lemma_nearest_magnitude_upper(n, 1, k);
            lemma_pow2_below(k + 1, 277);
            lemma_pow2_unfold(k + 1);
        }
    }
}

/// Floor and ceiling enclose a number, and are values themselves.
pub proof fn lemma_floor_ceil_enclose(v: Value)
    requires
        v is Finite,
    ensures
        v.floor_int() * one() <= v.units() <= v.ceil_int() * one(),
        v.units() < (v.floor_int() + 1) * one(),
        (v.ceil_int() - 1) * one() < v.units(),
        v.floored() is Finite,
        v.floored().units() == v.floor_int() * one(),
        v.ceiled() is Finite,
        v.ceiled().units() == v.ceil_int() * one(),
{
    let magnitude = v->Finite_magnitude;
    let negative = v->Finite_negative;
    lemma_pow2_pos(149);
    lemma_floor_ceil(negative, magnitude);
    let u = one() as int;
    let q = (magnitude / one()) as int;
    let r = (magnitude % one()) as int;
    vstd::arithmetic::div_mod::lemma_fundamental_div_mod(magnitude as int, u);
    assert(magnitude as int == u * q + r);
    assert((q + 1) * u == u * q + u) by (nonlinear_arith);
    assert((-(q + 1)) * u == -(u * q + u)) by (nonlinear_arith);
    assert(q * u == u * q) by (nonlinear_arith);
    assert((-q) * u == -(u * q)) by (nonlinear_arith);
    assert((q - 1) * u == u * q - u) by (nonlinear_arith);
    assert((-q - 1) * u == -(u * q) - u) by (nonlinear_arith);
    assert((1 - q) * u == u - u * q) by (nonlinear_arith);
    assert(q >= 0) by (nonlinear_arith)
        requires
            magnitude as int == u * q + r,
            r < u,
            u > 0,
            magnitude >= 0,
    ;
}

/// A finite sum is off by at most two to the power -24 of the exact one.
pub proof fn lemma_plus_error(a: Value, b: Value)
    requires
        a is Finite,
        b is Finite,
        -pow2(276) <= a.units() + b.units() <= pow2(276),
    ensures
        a.plus(b) is Finite,
        ({
            let exact = a.units() + b.units();
            let off = a.plus(b).units() - exact;
            let size = if exact < 0 {
                -exact
            } else {
                exact
            };
            -size <= 0x100_0000 * off <= size
        }),
        a.units() + b.units() >= 0 ==> a.plus(b).units() >= 0,
        a.units() + b.units() <= 0 ==> a.plus(b).units() <= 0,
{
    reveal(Value::plus);
    let m1 = a->Finite_magnitude;
    let m2 = b->Finite_magnitude;
    let n: nat = if a->Finite_negative == b->Finite_negative {
        m1 + m2
    } else if m1 > m2 {
        (m1 - m2) as nat
    } else {
        (m2 - m1) as nat
    };
    assert(pow2(276) * 1 == pow2(276));
    rounding::lemma_nearest_magnitude_upper(n, 1, 276);
    lemma_pow2_unfold(277);
    lemma_pow2_pos(276);
    rounding::lemma_nearest_magnitude_error(n, 1);
    let m = rounding::nearest_magnitude(n, 1);
    assert(m * 1 == m);
}

/// A finite product is off by at most one unit and two to the power -24 of the
/// exact one.
pub proof fn lemma_times_error(a: Value, b: Value)
    requires
        a is Finite,
        b is Finite,
        !b->Finite_negative,
        a->Finite_magnitude * b->Finite_magnitude <= pow2(276) * one(),
    ensures
        a.times(b) is Finite,
        ({
            let exact = a.units() * b.units();
            let off = a.times(b).units() * one() - exact;
            let size = (if exact < 0 {
                -exact
            } else {
                exact
            }) + 0x100_0000 * one();
            -size <= 0x100_0000 * off <= size
        }),
        a.units() <= 0 ==> a.times(b).units() <= 0,
        a.units() >= 0 ==> a.times(b).units() >= 0,
{
    reveal(Value::times);
    let m1 = a->Finite_magnitude;
    let m2 = b->Finite_magnitude;
    let n = m1 * m2;
    lemma_pow2_pos(149);
    rounding::lemma_nearest_magnitude_upper(n, one(), 276);
    lemma_pow2_unfold(277);
    lemma_pow2_pos(276);
    rounding::lemma_nearest_magnitude_error(n, one());
    let m = rounding::nearest_magnitude(n, one());
    assert((-(m1 as int)) * (m2 as int) == -(n as int)) by (nonlinear_arith)
        requires
            n == m1 * m2,
    ;
    assert((-(m as int)) * (one() as int) == -((m * one()) as int)) by (nonlinear_arith);
    if m1 == 0 {
        assert(n == 0) by (nonlinear_arith)
            requires
                n == m1 * m2,
                m1 == 0,
        ;
        rounding::lemma_nearest_integer_parts(0, one(), 0, 0);
        assert(0 * one() == 0);
    }
    assert(n >= 0) by (nonlinear_arith)
        requires
            n == m1 * m2,
    ;
}

/// Converting a floor or a ceiling to an integer range that holds it is exact.
pub proof fn lemma_whole_saturated(v: Value, low: int, high: int)
    requires
        v is Finite,
        low <= v.floor_int(),
        v.ceil_int() <= high,
    ensures
        v.floored().saturated(low, high) == v.floor_int(),
        v.ceiled().saturated(low, high) == v.ceil_int(),
{
    let u = one() as int;
    lemma_pow2_pos(149);
    lemma_floor_ceil_enclose(v);
    let f = v.floor_int();
    let c = v.ceil_int();
    assert(f <= c) by (nonlinear_arith)
        requires
            f * u <= c * u,
            u > 0,
    ;
    if v->Finite_negative {
        assert(f <= 0 && c <= 0) by (nonlinear_arith)
            requires
                f * u <= v.units(),
                (c - 1) * u < v.units(),
                v.units() <= 0,
                u > 0,
        ;
        vstd::arithmetic::div_mod::lemma_div_multiples_vanish(-f, u);
        vstd::arithmetic::div_mod::lemma_div_multiples_vanish(-c, u);
    } else {
        assert(f >= 0 && c >= 0) by (nonlinear_arith)
            requires
                v.units() < (f + 1) * u,
                v.units() <= c * u,
                v.units() >= 0,
                u > 0,
        ;
        vstd::arithmetic::div_mod::lemma_div_multiples_vanish(f, u);
        vstd::arithmetic::div_mod::lemma_div_multiples_vanish(c, u);
    }
    assert(u * f == f * u && u * c == c * u && u * (-f) == (-f) * u && u * (-c) == (-c) * u)
        by (nonlinear_arith);
}

/// A significand times a power of two has an encoding.
proof fn lemma_encoded(negative: bool, m: nat, k: nat) -> (f: Float32)
    requires
        m <= 0x100_0000,
    ensures
        f@ == if m * pow2(k) < pow2(277) {
            Value::Finite { negative, magnitude: m * pow2(k) }
        } else {
            Value::Infinite { negative }
        },
    decreases (if m == 0x100_0000 { 1nat } else { 0nat }), k,
{
    let sign: int = if negative {
        0x8000_0000
    } else {
        0
    };
    let whole = m * pow2(k);
    vstd::arithmetic::power2::lemma2_to64();
    if m == 0 {
        lemma_pow2_pos(277);
        assert(0 * pow2(k) == 0);
        Float32 { bits: sign as u32 }
    } else if m == 0x100_0000 {
        lemma_pow2_unfold(k + 1);
        assert(0x80_0000 * pow2(k + 1) == whole);
        lemma_encoded(negative, 0x80_0000, k + 1)
    } else if m < 0x80_0000 && k > 0 {
        lemma_pow2_unfold(k);
        assert((2 * m) * pow2((k - 1) as nat) == whole) by (nonlinear_arith)
            requires
                pow2(k) == 2 * pow2((k - 1) as nat),
                whole == m * pow2(k),
        ;
        lemma_encoded(negative, 2 * m, (k - 1) as nat)
    } else if m < 0x80_0000 {
        lemma_pow2_below(24, 277);
        assert(m * pow2(0) == m);
        let f = Float32 { bits: (sign + m) as u32 };
        assert((f.bits as nat / 0x80_0000) % 256 == 0);
        assert(f.bits as nat % 0x80_0000 == m);
        f
    } else if k >= 254 {
        lemma_pow2_add(23, 254);
        lemma_pow2_below(254, k);
        assert(whole >= 0x80_0000 * pow2(254)) by (nonlinear_arith)
            requires
                whole == m * pow2(k),
                m >= 0x80_0000,
                pow2(k) >= pow2(254),
        ;
        Float32 { bits: (sign + 0x7f80_0000) as u32 }
    } else {
        lemma_pow2_add(24, 253);
        lemma_pow2_below(k, 253);
        lemma_pow2_pos(253);
        assert(whole < 0x100_0000 * pow2(253)) by (nonlinear_arith)
            requires
                whole == m * pow2(k),
                m < 0x100_0000,
                pow2(k) <= pow2(253),
                pow2(253) > 0,
        ;
        let f = Float32 { bits: (sign + (k + 1) * 0x80_0000 + (m - 0x80_0000)) as u32 };
        assert((f.bits as nat / 0x80_0000) % 256 == k + 1);
        assert(f.bits as nat % 0x80_0000 == m - 0x80_0000);
        f
    }
}

/// A rounded number has an encoding.
proof fn lemma_rounded_encoded(negative: bool, n: nat, d: nat)
    requires
        d > 0,
    ensures
        Float32::of(Value::rounded(negative, n, d))@ == Value::rounded(negative, n, d),
{
    let (m, k) = rounding::lemma_nearest_magnitude_form(n, d);
    let f = lemma_encoded(negative, m, k);
    assert(f.encodes(Value::rounded(negative, n, d)));
}

/// What is not finite has an encoding, and so has zero.
proof fn lemma_special_encoded(v: Value)
    requires
        !(v is Finite) || v->Finite_magnitude == 0,
    ensures
        Float32::of(v)@ == v,
{
    let bits: u32 = match v {
        Value::Nan => 0x7fc0_0000,
        Value::Infinite { negative } => if negative {
            0xff80_0000
        } else {
            0x7f80_0000
        },
        Value::Finite { negative, .. } => if negative {
            0x8000_0000
        } else {
            0
        },
    };
    let f = Float32 { bits };
    assert(f.encodes(v));
}

/// The encoding of a sum stands for the sum.
pub proof fn lemma_sum_value(a: Float32, b: Float32)
    ensures
        a.sum(b)@ == a@.plus(b@),
{
    reveal(Value::plus);
    let v = a@.plus(b@);
    if a@ is Finite && b@ is Finite {
        let m1 = a@->Finite_magnitude;
        let m2 = b@->Finite_magnitude;
        let n1 = a@->Finite_negative;
        let n2 = b@->Finite_negative;
        if n1 == n2 {
            lemma_rounded_encoded(n1, m1 + m2, 1);
        } else if m1 > m2 {
            lemma_rounded_encoded(n1, (m1 - m2) as nat, 1);
        } else if m2 > m1 {
            lemma_rounded_encoded(n2, (m2 - m1) as nat, 1);
        } else {
            lemma_special_encoded(v);
        }
    } else {
        lemma_special_encoded(v);
    }
}

/// The encoding of a difference stands for the difference.
pub proof fn lemma_difference_value(a: Float32, b: Float32)
    ensures
        a.difference(b)@ == a@.minus(b@),
{
    let negated = Float32 {
        bits: if b.bits >= 0x8000_0000 {
            (b.bits - 0x8000_0000) as u32
        } else {
            (b.bits + 0x8000_0000) as u32
        },
    };
    assert(negated@ == b@.negated());
    lemma_sum_value(a, negated);
}

/// The encoding of a quotient stands for the quotient.
pub proof fn lemma_quotient_value(a: Float32, b: Float32)
    ensures
        a.quotient(b)@ == a@.over(b@),
{
    reveal(Value::over);
    if a@ is Finite && b@ is Finite && b@->Finite_magnitude > 0 {
        lemma_rounded_encoded(
            a@->Finite_negative != b@->Finite_negative,
            a@->Finite_magnitude * one(),
            b@->Finite_magnitude,
        );
    } else {
        lemma_special_encoded(a@.over(b@));
    }
}

/// The magnitude of an encoding is below the limit of exponents.
pub proof fn lemma_magnitude_limit(a: Float32)
    requires
        a@ is Finite,
    ensures
        a@->Finite_magnitude < pow2(277),
{
    let exponent = (a.bits as nat / 0x80_0000) % 256;
    let fraction = a.bits as nat % 0x80_0000;
    vstd::arithmetic::power2::lemma2_to64();
    lemma_pow2_below(24, 277);
    if exponent > 0 {
        let k = (exponent - 1) as nat;
        lemma_pow2_add(24, 253);
        lemma_pow2_below(k, 253);
        lemma_pow2_pos(k);
        assert((fraction + 0x80_0000) * pow2(k) < 0x100_0000 * pow2(253)) by (nonlinear_arith)
            requires
                fraction < 0x80_0000,
                0 < pow2(k) <= pow2(253),
        ;
    }
}

/// The encoding of a whole number stands for it, if a significand holds it.
pub proof fn lemma_from_nat_value(n: nat)
    requires
        n <= 0x100_0000,
    ensures
        Float32::of(Value::from_nat(n))@ == Value::whole(false, n as int),
{
    lemma_rounded_encoded(false, n * one(), 1);
    lemma_from_nat_exact(n);
}

/// The significand and the scale of a number.
pub proof fn lemma_parts_of(a: Float32) -> (r: (nat, nat))
    requires
        a@ is Finite,
    ensures
        r.0 < 0x100_0000,
        a@->Finite_magnitude == r.0 * pow2(r.1),
{
    let exponent = (a.bits as nat / 0x80_0000) % 256;
    let fraction = a.bits as nat % 0x80_0000;
    vstd::arithmetic::power2::lemma2_to64();
    if exponent == 0 {
        assert(fraction * pow2(0) == fraction);
        (fraction, 0)
    } else {
        (fraction + 0x80_0000, (exponent - 1) as nat)
    }
}

/// The encoding of a product stands for the product.
pub proof fn lemma_product_value(a: Float32, b: Float32)
    ensures
        a.product(b)@ == a@.times(b@),
{
    reveal(Value::times);
    lemma_pow2_pos(149);
    if a@ is Finite && b@ is Finite {
        lemma_rounded_encoded(
            a@->Finite_negative != b@->Finite_negative,
            a@->Finite_magnitude * b@->Finite_magnitude,
            one(),
        );
    } else {
        lemma_special_encoded(a@.times(b@));
    }
}

/// The encoding of the opposite of a number stands for it.
pub proof fn lemma_negated_value(a: Float32)
    ensures
        Float32::of(a@.negated())@ == a@.negated(),
{
    let negated = Float32 {
        bits: if a.bits >= 0x8000_0000 {
            (a.bits - 0x8000_0000) as u32
        } else {
            (a.bits + 0x8000_0000) as u32
        },
    };
    if a@ is Nan {
        lemma_special_encoded(Value::Nan);
    } else {
        assert(negated.encodes(a@.negated()));
    }
}

/// The encoding of a whole number stands for it, if a significand holds it.
pub proof fn lemma_whole_value(n: nat)
    requires
        n <= 0x100_0000,
    ensures
        Float32::of(Value::whole(false, n as int))@ == Value::whole(false, n as int),
{
    lemma_from_nat_value(n);
    lemma_from_nat_exact(n);
}

/// The significand and the scale of a number that is at least one.
pub proof fn lemma_scale_of(a: Float32) -> (r: (nat, nat))
    requires
        a@ is Finite,
        a@.units() >= one(),
    ensures
        r.0 < 0x100_0000,
        r.1 >= 126,
        a@.units() == r.0 * pow2(r.1),
{
    let exponent = (a.bits as nat / 0x80_0000) % 256;
    let fraction = a.bits as nat % 0x80_0000;
    vstd::arithmetic::power2::lemma2_to64();
    lemma_pow2_below(24, 149);
    let m = fraction + 0x80_0000;
    let k = (exponent - 1) as nat;
    if k < 126 {
        lemma_pow2_add(24, 125);
        lemma_pow2_below(k, 125);
        assert(m * pow2(k) < 0x100_0000 * pow2(125)) by (nonlinear_arith)
            requires
                m < 0x100_0000,
                0 < pow2(k) <= pow2(125),
        ;
    }
    (m, k)
}

/// The magnitude of an encoding needs no rounding.
pub proof fn lemma_view_is_rounded(a: Float32)
    requires
        a@ is Finite,
    ensures
        rounding::nearest_magnitude(a@->Finite_magnitude, 1) == a@->Finite_magnitude,
{
    let exponent = (a.bits as nat / 0x80_0000) % 256;
    let fraction = a.bits as nat % 0x80_0000;
    if exponent == 0 {
        vstd::arithmetic::power2::lemma2_to64();
        assert(fraction * pow2(0) == fraction);
        rounding::lemma_nearest_magnitude_exact(fraction, 0);
    } else {
        rounding::lemma_nearest_magnitude_exact(fraction + 0x80_0000, (exponent - 1) as nat);
    }
}

} // verus!
