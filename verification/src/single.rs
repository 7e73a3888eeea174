//! IEEE 754 single-precision arithmetic on integers.
//!
//! Every finite single is a whole number of *units* of 2^-149, the smallest
//! positive subnormal. A value is therefore a sign and a natural number of
//! units, and each operation is the exact rational result rounded to the
//! nearest representable number of units, ties to even.
use vstd::arithmetic::div_mod::*;
use vstd::arithmetic::mul::*;
use vstd::arithmetic::power2::*;
use vstd::prelude::*;

verus! {

/// The bit pattern of the single 1.0.
pub const ONE_BITS: u32 = 0x3f80_0000;

/// What a single-precision datum stands for.
pub enum Real {
    /// Not a number.
    Nan,
    /// Positive or negative infinity.
    Infinite { negative: bool },
    /// A finite number: `units` times 2^-149, with a sign.
    Finite { negative: bool, units: nat },
}

/// Distance, in units, between neighbouring singles around `t` units: the power
/// of two that leaves at most 24 significant bits.
pub open spec fn quantum(t: nat) -> nat
    decreases t,
{
    if t < 0x100_0000 {
        1
    } else {
        2 * quantum(t / 2)
    }
}

/// `n / d` rounded to the nearest natural number, ties to even.
pub open spec fn nearest_even(n: nat, d: nat) -> nat {
    let q = n / d;
    let r = n % d;
    if 2 * r < d || (2 * r == d && q % 2 == 0) {
        q
    } else {
        q + 1
    }
}

/// The number of units of the single nearest to `n / d` units, before the
/// exponent range is taken into account.
pub open spec fn round_units(n: nat, d: nat) -> nat {
    let g = quantum(n / d);
    nearest_even(n, d * g) * g
}

/// A rounded magnitude, or infinity where it exceeds the largest finite single.
pub open spec fn finite_or_infinite(negative: bool, units: nat) -> Real {
    if units < pow2(277) {
        Real::Finite { negative, units }
    } else {
        Real::Infinite { negative }
    }
}

/// The datum that the 32 bits of a single encode.
pub open spec fn decode(bits: u32) -> Real {
    let negative = bits >= 0x8000_0000;
    let exponent = (bits / 0x80_0000) % 256;
    let fraction = bits % 0x80_0000;
    if exponent == 255 {
        if fraction == 0 {
            Real::Infinite { negative }
        } else {
            Real::Nan
        }
    } else if exponent == 0 {
        Real::Finite { negative, units: fraction as nat }
    } else {
        Real::Finite {
            negative,
            units: ((0x80_0000 + fraction) * pow2((exponent - 1) as nat)) as nat,
        }
    }
}

impl Real {
    /// The exact number of units of a finite value, with its sign.
    pub open spec fn signed_units(self) -> int {
        match self {
            Real::Finite { negative, units } => if negative {
                -(units as int)
            } else {
                units as int
            },
            _ => 0,
        }
    }

    /// The single nearest to the integer `n`.
    pub open spec fn from_int(n: int) -> Real {
        if n < 0 {
            finite_or_infinite(true, round_units((-n * pow2(149)) as nat, 1))
        } else {
            finite_or_infinite(false, round_units((n * pow2(149)) as nat, 1))
        }
    }

    /// IEEE multiplication.
    pub open spec fn times(self, other: Real) -> Real {
        match (self, other) {
            (Real::Nan, _) => Real::Nan,
            (_, Real::Nan) => Real::Nan,
            (Real::Infinite { negative: s }, Real::Infinite { negative: t }) => Real::Infinite {
                negative: s != t,
            },
            (Real::Infinite { negative: s }, Real::Finite { negative: t, units }) => if units == 0 {
                Real::Nan
            } else {
                Real::Infinite { negative: s != t }
            },
            (Real::Finite { negative: s, units }, Real::Infinite { negative: t }) => if units == 0 {
                Real::Nan
            } else {
                Real::Infinite { negative: s != t }
            },
            (
                Real::Finite { negative: s, units: a },
                Real::Finite { negative: t, units: b },
            ) => finite_or_infinite(s != t, round_units(a * b, pow2(149))),
        }
    }

    /// IEEE division.
    pub open spec fn over(self, other: Real) -> Real {
        match (self, other) {
            (Real::Nan, _) => Real::Nan,
            (_, Real::Nan) => Real::Nan,
            (Real::Infinite { .. }, Real::Infinite { .. }) => Real::Nan,
            (Real::Infinite { negative: s }, Real::Finite { negative: t, .. }) => Real::Infinite {
                negative: s != t,
            },
            (Real::Finite { negative: s, .. }, Real::Infinite { negative: t }) => Real::Finite {
                negative: s != t,
                units: 0,
            },
            (
                Real::Finite { negative: s, units: a },
                Real::Finite { negative: t, units: b },
            ) => if b == 0 {
                if a == 0 {
                    Real::Nan
                } else {
                    Real::Infinite { negative: s != t }
                }
            } else {
                finite_or_infinite(s != t, round_units(a * pow2(149), b))
            },
        }
    }

    /// IEEE addition.
    pub open spec fn plus(self, other: Real) -> Real {
        match (self, other) {
            (Real::Nan, _) => Real::Nan,
            (_, Real::Nan) => Real::Nan,
            (Real::Infinite { negative: s }, Real::Infinite { negative: t }) => if s == t {
                self
            } else {
                Real::Nan
            },
            (Real::Infinite { .. }, _) => self,
            (_, Real::Infinite { .. }) => other,
            (Real::Finite { negative: s, .. }, Real::Finite { negative: t, .. }) => {
                let sum = self.signed_units() + other.signed_units();
                if sum == 0 {
                    Real::Finite { negative: s && t, units: 0 }
                } else if sum < 0 {
                    finite_or_infinite(true, round_units((-sum) as nat, 1))
                } else {
                    finite_or_infinite(false, round_units(sum as nat, 1))
                }
            },
        }
    }

    /// The nearest integer, ties away from zero, clamped to `i32`; 0 for NaN.
    pub open spec fn rounded(self) -> int {
        match self {
            Real::Nan => 0,
            Real::Infinite { negative } => if negative {
                i32::MIN as int
            } else {
                i32::MAX as int
            },
            Real::Finite { negative, units } => {
                let m = (2 * units + pow2(149)) as int / (2 * pow2(149)) as int;
                if negative {
                    if m > 0x8000_0000 {
                        i32::MIN as int
                    } else {
                        -m
                    }
                } else {
                    if m > 0x7fff_ffff {
                        i32::MAX as int
                    } else {
                        m
                    }
                }
            },
        }
    }
}

/// A single-precision number, taken apart into integers.
#[derive(Clone, Copy, Debug)]
pub enum Single {
    /// Not a number.
    Nan,
    /// Positive or negative infinity.
    Infinite { negative: bool },
    /// `significand` times 2^`shift` units, with a sign.
    Finite { negative: bool, significand: u32, shift: u32 },
}

impl View for Single {
    type V = Real;

    open spec fn view(&self) -> Real {
        match *self {
            Single::Nan => Real::Nan,
            Single::Infinite { negative } => Real::Infinite { negative },
            Single::Finite { negative, significand, shift } => Real::Finite {
                negative,
                units: (significand as nat) * pow2(shift as nat),
            },
        }
    }
}

/// `n / d` lies in `[p, p + 1)`, and at its lower end exactly if nothing was cut
/// off.
spec fn brackets(n: int, d: int, p: int, sticky: bool) -> bool {
    &&& p * d <= n < (p + 1) * d
    &&& (n == p * d) == !sticky
}

proof fn lemma_quantum_power(t: nat, j: nat)
    requires
        t / pow2(j) < 0x100_0000,
        j == 0 || t / pow2(j) >= 0x80_0000,
    ensures
        quantum(t) == pow2(j),
    decreases j,
{
    lemma_pow2_pos(j);
    if j == 0 {
        lemma2_to64();
        assert(t / 1 == t);
    } else {
        let i = (j - 1) as nat;
        lemma_pow2_unfold(j);
        lemma_pow2_pos(i);
        lemma_div_denominator(t as int, 2, pow2(i) as int);
        assert((t / 2) / pow2(i) == t / pow2(j));
        assert(t >= 0x100_0000) by {
            lemma_fundamental_div_mod(t as int, pow2(j) as int);
            let q = t / pow2(j);
            assert(pow2(j) * q >= 2 * 0x80_0000) by (nonlinear_arith)
                requires
                    pow2(j) >= 2,
                    q >= 0x80_0000,
            ;
        }
        lemma_quantum_power(t / 2, i);
    }
}

/// Rounding at the bit where 24 significant bits are left.
proof fn lemma_round_units(n: nat, d: nat, j: nat, p: nat, sticky: bool)
    requires
        d > 0,
        brackets((2 * n) as int, (d * pow2(j)) as int, p as int, sticky),
        p < 0x200_0000,
        p >= 0x100_0000 || j == 0,
    ensures
        round_units(n, d) == (if p % 2 == 1 && (sticky || (p / 2) % 2 == 1) {
            p / 2 + 1
        } else {
            p / 2
        }) * pow2(j),
{
    let g = pow2(j);
    lemma_pow2_pos(j);
    let dg = d * g;
    let q = p / 2;
    lemma_mul_strictly_positive(d as int, g as int);
    assert(p * dg <= 2 * n < (p + 1) * dg);
    assert(q * dg <= n < (q + 1) * dg) by (nonlinear_arith)
        requires
            p * dg <= 2 * n < (p + 1) * dg,
            q == p / 2,
            dg > 0,
    ;
    let r = (n - q * dg) as nat;
    assert((q + 1) * dg == q * dg + dg) by (nonlinear_arith);
    lemma_fundamental_div_mod_converse(n as int, dg as int, q as int, r as int);
    if p % 2 == 0 {
        assert(2 * r < dg) by (nonlinear_arith)
            requires
                2 * n < (p + 1) * dg,
                p == 2 * q,
                r == n - q * dg,
        ;
    } else {
        assert(2 * r >= dg && ((2 * r == dg) == !sticky)) by (nonlinear_arith)
            requires
                p * dg <= 2 * n,
                (2 * n == p * dg) == !sticky,
                p == 2 * q + 1,
                r == n - q * dg,
        ;
    }
    lemma_div_denominator(n as int, d as int, g as int);
    assert((n / d) / g == q);
    lemma_quantum_power(n / d, j);
}

/// Scale of the ghost numerators, so that no exponent in use is negative.
spec fn bias() -> nat {
    1000
}

/// One bit less: the cut-off bit joins the sticky bit.
proof fn lemma_halve(n: int, d: int, p: int, sticky: bool)
    requires
        d > 0,
        p >= 0,
        brackets(n, d, p, sticky),
    ensures
        brackets(n, 2 * d, p / 2, sticky || p % 2 == 1),
{
    let h = p / 2;
    if p % 2 == 0 {
        assert(h * (2 * d) == p * d) by (nonlinear_arith)
            requires
                p == 2 * h,
        ;
        assert((h + 1) * (2 * d) == p * d + 2 * d) by (nonlinear_arith)
            requires
                p == 2 * h,
        ;
        assert((p + 1) * d == p * d + d) by (nonlinear_arith);
    } else {
        assert(h * (2 * d) == p * d - d) by (nonlinear_arith)
            requires
                p == 2 * h + 1,
        ;
        assert((h + 1) * (2 * d) == p * d + d) by (nonlinear_arith)
            requires
                p == 2 * h + 1,
        ;
        assert((p + 1) * d == p * d + d) by (nonlinear_arith);
    }
}

/// One bit more, of an exact value.
proof fn lemma_double(n: int, d: int, p: int)
    requires
        d > 0,
        brackets(n, 2 * d, p, false),
    ensures
        brackets(n, d, 2 * p, false),
{
    assert((2 * p) * d == p * (2 * d)) by (nonlinear_arith);
    assert((2 * p + 1) * d == p * (2 * d) + d) by (nonlinear_arith);
}

/// Cancels the ghost scale.
proof fn lemma_unscale(n: nat, d: nat, j: nat, p: nat, sticky: bool)
    requires
        d > 0,
        j + bias() >= 1,
        brackets((n * pow2(bias())) as int, (d * pow2((j + bias() - 1) as nat)) as int, p as int, sticky),
    ensures
        brackets((2 * n) as int, (d * pow2(j)) as int, p as int, sticky),
{
    let k = pow2(bias());
    let a = pow2((j + bias() - 1) as nat);
    let g = pow2(j);
    lemma_pow2_pos(bias());
    lemma_pow2_unfold((j + bias()) as nat);
    lemma_pow2_adds(j, bias());
    assert(2 * a == g * k);
    let x = (d * g) as int;
    assert(2 * (p * (d * a)) == (p * x) * k) by (nonlinear_arith)
        requires
            2 * a == g * k,
            x == d * g,
    ;
    assert(2 * ((p + 1) * (d * a)) == ((p + 1) * x) * k) by (nonlinear_arith)
        requires
            2 * a == g * k,
            x == d * g,
    ;
    assert(2 * (n * k) == (2 * n) * k) by (nonlinear_arith);
    let m = (2 * n) as int;
    assert(p * x <= m) by (nonlinear_arith)
        requires
            (p * x) * k <= m * k,
            k > 0,
    ;
    assert(m < (p + 1) * x) by (nonlinear_arith)
        requires
            m * k < ((p + 1) * x) * k,
            k > 0,
    ;
    assert((m == p * x) == (m * k == (p * x) * k)) by (nonlinear_arith)
        requires
            k > 0,
    ;
}

impl Single {
    /// The parts are those of a representable number.
    pub open spec fn wf(self) -> bool {
        self matches Single::Finite { significand, shift, .. } ==> significand < 0x100_0000 && shift
            <= 253
    }

    /// Takes the bits of a single apart.
    pub fn from_bits(bits: u32) -> (r: Single)
        ensures
            r.wf(),
            r@ == decode(bits),
    {
        let negative = bits >= 0x8000_0000;
        let exponent: u32 = (bits / 0x80_0000) % 256;
        let fraction: u32 = bits % 0x80_0000;
        if exponent == 255 {
            if fraction == 0 {
                Single::Infinite { negative }
            } else {
                Single::Nan
            }
        } else if exponent == 0 {
            proof {
                lemma2_to64();
                lemma_mul_basics(fraction as int);
            }
            Single::Finite { negative, significand: fraction, shift: 0 }
        } else {
            Single::Finite { negative, significand: 0x80_0000 + fraction, shift: exponent - 1 }
        }
    }

    /// Rounds the value that `p`, an exponent and a sticky bit bracket.
    fn round(
        negative: bool,
        p: u128,
        exponent: i32,
        sticky: bool,
        Ghost(n): Ghost<nat>,
        Ghost(d): Ghost<nat>,
    ) -> (r: Single)
        requires
            d > 0,
            -900 <= exponent <= 900,
            0 < p,
            sticky ==> p >= 0x200_0000,
            brackets(
                (n * pow2(bias())) as int,
                (d * pow2((exponent + bias()) as nat)) as int,
                p as int,
                sticky,
            ),
        ensures
            r.wf(),
            r@ == finite_or_infinite(negative, round_units(n, d)),
    {
        let mut p: u128 = p;
        let mut e: i32 = exponent;
        let mut sticky: bool = sticky;
        while p < 0x100_0000 && e > -1
            invariant
                d > 0,
                0 < p,
                -900 <= e <= 900,
                sticky ==> p >= 0x200_0000,
                brackets(
                    (n * pow2(bias())) as int,
                    (d * pow2((e + bias()) as nat)) as int,
                    p as int,
                    sticky,
                ),
            decreases e + 1,
        {
            proof {
                let h = pow2((e - 1 + bias()) as nat);
                lemma_pow2_unfold((e + bias()) as nat);
                lemma_pow2_pos((e - 1 + bias()) as nat);
                assert(d * (2 * h) == 2 * (d * h)) by (nonlinear_arith);
                lemma_mul_strictly_positive(d as int, h as int);
                lemma_double((n * pow2(bias())) as int, (d * h) as int, p as int);
            }
            p = p * 2;
            e = e - 1;
        }
        proof {
            lemma_pow2_128();
            if 1028 - e > 128 {
                lemma_pow2_strictly_increases(128, (1028 - e) as nat);
            }
        }
        while p >= 0x200_0000 || e < -1
            invariant
                d > 0,
                -900 <= e <= 1028,
                e >= -1 ==> p >= 0x100_0000 || e == -1,
                p < pow2((1028 - e) as nat),
                brackets(
                    (n * pow2(bias())) as int,
                    (d * pow2((e + bias()) as nat)) as int,
                    p as int,
                    sticky,
                ),
            decreases 1028 - e,
        {
            proof {
                lemma2_to64();
                let h = pow2((e + bias()) as nat);
                lemma_pow2_unfold((e + 1 + bias()) as nat);
                lemma_pow2_pos((e + bias()) as nat);
                assert(d * (2 * h) == 2 * (d * h)) by (nonlinear_arith);
                lemma_mul_strictly_positive(d as int, h as int);
                lemma_halve((n * pow2(bias())) as int, (d * h) as int, p as int, sticky);
                lemma_pow2_unfold((1028 - e) as nat);
            }
            sticky = sticky || p % 2 == 1;
            p = p / 2;
            e = e + 1;
        }
        let j: u32 = (e + 1) as u32;
        proof {
            assert(e + bias() == j + bias() - 1);
            lemma_unscale(n, d, j as nat, p as nat, sticky);
            lemma_round_units(n, d, j as nat, p as nat, sticky);
        }
        let q: u32 = (p / 2) as u32;
        let up = p % 2 == 1 && (sticky || q % 2 == 1);
        let m: u32 = if up {
            q + 1
        } else {
            q
        };
        assert(round_units(n, d) == m * pow2(j as nat));
        if m == 0x100_0000 {
            proof {
                lemma_pow2_unfold((j + 1) as nat);
                assert(m * pow2(j as nat) == 0x80_0000 * pow2((j + 1) as nat)) by (nonlinear_arith)
                    requires
                        m == 0x100_0000,
                        pow2((j + 1) as nat) == 2 * pow2(j as nat),
                ;
            }
            Single::within_range(negative, 0x80_0000, j + 1)
        } else {
            Single::within_range(negative, m, j)
        }
    }

    /// A significand and shift, or infinity beyond the exponent range.
    fn within_range(negative: bool, significand: u32, shift: u32) -> (r: Single)
        requires
            significand < 0x100_0000,
            shift > 0 ==> significand >= 0x80_0000,
        ensures
            r.wf(),
            r@ == finite_or_infinite(negative, (significand as nat) * pow2(shift as nat)),
    {
        proof {
            lemma2_to64();
            lemma_pow2_pos(shift as nat);
            if shift <= 253 {
                lemma_pow2_adds(24, 253);
                if shift < 253 {
                    lemma_pow2_strictly_increases(shift as nat, 253);
                }
                assert(significand * pow2(shift as nat) < pow2(24) * pow2(253)) by (nonlinear_arith)
                    requires
                        significand < pow2(24),
                        0 < pow2(shift as nat) <= pow2(253),
                ;
            } else {
                lemma_pow2_adds(23, 254);
                if shift > 254 {
                    lemma_pow2_strictly_increases(254, shift as nat);
                }
                lemma_pow2_pos(254);
                assert(significand * pow2(shift as nat) >= pow2(23) * pow2(254)) by (nonlinear_arith)
                    requires
                        significand >= pow2(23),
                        pow2(shift as nat) >= pow2(254) > 0,
                ;
            }
        }
        if shift <= 253 {
            Single::Finite { negative, significand, shift }
        } else {
            Single::Infinite { negative }
        }
    }

    /// The exact value of a significand and a shift, rounded.
    fn exact(negative: bool, p: u128, shift: u32) -> (r: Single)
        requires
            shift <= 400,
        ensures
            r.wf(),
            r@ == finite_or_infinite(negative, round_units((p as nat) * pow2(shift as nat), 1)),
    {
        if p == 0 {
            proof {
                lemma_mul_by_zero_is_zero(pow2(shift as nat) as int);
                lemma_mul_by_zero_is_zero(pow2(0) as int);
                lemma_round_zero(1);
                lemma_pow2_pos(277);
            }
            return Single::Finite { negative, significand: 0, shift: 0 };
        }
        let ghost n = (p as nat) * pow2(shift as nat);
        proof {
            let t = pow2((shift + bias()) as nat);
            lemma_pow2_adds(shift as nat, bias());
            lemma_pow2_pos((shift + bias()) as nat);
            lemma_mul_is_associative(p as int, pow2(shift as nat) as int, pow2(bias()) as int);
            assert(n * pow2(bias()) == p * t);
            assert(1 * t == t);
            assert((p + 1) * t == p * t + t) by (nonlinear_arith);
        }
        Single::round(negative, p, shift as i32, false, Ghost(n), Ghost(1))
    }

    /// The single nearest to an integer.
    pub fn from_i32(n: i32) -> (r: Single)
        ensures
            r.wf(),
            r@ == Real::from_int(n as int),
    {
        let m: u128 = if n < 0 {
            (-(n as i64)) as u128
        } else {
            n as u128
        };
        Single::exact(n < 0, m, 149)
    }

    /// The product of two singles.
    pub fn times(self, other: Single) -> (r: Single)
        requires
            self.wf(),
            other.wf(),
        ensures
            r.wf(),
            r@ == self@.times(other@),
    {
        match (self, other) {
            (Single::Nan, _) => Single::Nan,
            (_, Single::Nan) => Single::Nan,
            (Single::Infinite { negative: s }, Single::Infinite { negative: t }) => {
                Single::Infinite { negative: s != t }
            },
            (
                Single::Infinite { negative: s },
                Single::Finite { negative: t, significand, shift },
            ) => {
                proof {
                    lemma_zero_units(significand, shift);
                }
                if significand == 0 {
                    Single::Nan
                } else {
                    Single::Infinite { negative: s != t }
                }
            },
            (
                Single::Finite { negative: s, significand, shift },
                Single::Infinite { negative: t },
            ) => {
                proof {
                    lemma_zero_units(significand, shift);
                }
                if significand == 0 {
                    Single::Nan
                } else {
                    Single::Infinite { negative: s != t }
                }
            },
            (
                Single::Finite { negative: s, significand: a, shift: h },
                Single::Finite { negative: t, significand: b, shift: k },
            ) => Single::times_finite(s != t, a, h, b, k),
        }
    }

    fn times_finite(negative: bool, a: u32, h: u32, b: u32, k: u32) -> (r: Single)
        requires
            a < 0x100_0000,
            b < 0x100_0000,
            h <= 253,
            k <= 253,
        ensures
            r.wf(),
            r@ == finite_or_infinite(
                negative,
                round_units(
                    ((a as nat) * pow2(h as nat)) * ((b as nat) * pow2(k as nat)),
                    pow2(149),
                ),
            ),
    {
        let ghost n = ((a as nat) * pow2(h as nat)) * ((b as nat) * pow2(k as nat));
        proof {
            assert(a * b < 0x1_0000_0000_0000) by (nonlinear_arith)
                requires
                    a < 0x100_0000,
                    b < 0x100_0000,
            ;
            assert(a * b >= 0) by (nonlinear_arith);
            lemma_pow2_pos(149);
        }
        let p: u128 = (a as u128) * (b as u128);
        let e: i32 = h as i32 + k as i32 - 149;
        if p == 0 {
            proof {
                assert(a == 0 || b == 0) by (nonlinear_arith)
                    requires
                        a * b == 0,
                ;
                assert(n == 0) by (nonlinear_arith)
                    requires
                        a == 0 || b == 0,
                        n == (a * pow2(h as nat)) * (b * pow2(k as nat)),
                ;
                lemma_round_zero(pow2(149));
                lemma_pow2_pos(277);
                lemma_mul_by_zero_is_zero(pow2(0) as int);
            }
            return Single::Finite { negative, significand: 0, shift: 0 };
        }
        proof {
            let d = pow2(149);
            let t = pow2((e + bias()) as nat);
            lemma_pow2_adds(h as nat, k as nat);
            lemma_pow2_adds((h + k) as nat, bias());
            lemma_pow2_adds(149, (e + bias()) as nat);
            assert(h + k + bias() == 149 + (e + bias()));
            let u = pow2((h + k + bias()) as nat);
            assert(u == d * t);
            assert(n * pow2(bias()) == p * u) by (nonlinear_arith)
                requires
                    n == (a * pow2(h as nat)) * (b * pow2(k as nat)),
                    p == a * b,
                    u == pow2((h + k) as nat) * pow2(bias()),
                    pow2((h + k) as nat) == pow2(h as nat) * pow2(k as nat),
            ;
            lemma_pow2_pos((h + k + bias()) as nat);
            assert((p + 1) * u == p * u + u) by (nonlinear_arith);
        }
        Single::round(negative, p, e, false, Ghost(n), Ghost(pow2(149)))
    }

    /// The quotient of two singles.
    pub fn over(self, other: Single) -> (r: Single)
        requires
            self.wf(),
            other.wf(),
        ensures
            r.wf(),
            r@ == self@.over(other@),
    {
        match (self, other) {
            (Single::Nan, _) => Single::Nan,
            (_, Single::Nan) => Single::Nan,
            (Single::Infinite { .. }, Single::Infinite { .. }) => Single::Nan,
            (Single::Infinite { negative: s }, Single::Finite { negative: t, .. }) => {
                Single::Infinite { negative: s != t }
            },
            (Single::Finite { negative: s, .. }, Single::Infinite { negative: t }) => {
                proof {
                    lemma_mul_by_zero_is_zero(pow2(0) as int);
                }
                Single::Finite { negative: s != t, significand: 0, shift: 0 }
            },
            (
                Single::Finite { negative: s, significand: a, shift: h },
                Single::Finite { negative: t, significand: b, shift: k },
            ) => {
                proof {
                    lemma_zero_units(a, h);
                    lemma_zero_units(b, k);
                }
                if b == 0 {
                    if a == 0 {
                        Single::Nan
                    } else {
                        Single::Infinite { negative: s != t }
                    }
                } else {
                    Single::over_finite(s != t, a, h, b, k)
                }
            },
        }
    }

    fn over_finite(negative: bool, a: u32, h: u32, b: u32, k: u32) -> (r: Single)
        requires
            a < 0x100_0000,
            0 < b < 0x100_0000,
            h <= 253,
            k <= 253,
        ensures
            r.wf(),
            r@ == finite_or_infinite(
                negative,
                round_units(
                    ((a as nat) * pow2(h as nat)) * pow2(149),
                    (b as nat) * pow2(k as nat),
                ),
            ),
    {
        let ghost n = ((a as nat) * pow2(h as nat)) * pow2(149);
        let ghost d = (b as nat) * pow2(k as nat);
        proof {
            lemma_pow2_pos(k as nat);
            lemma_mul_strictly_positive(b as int, pow2(k as nat) as int);
        }
        if a == 0 {
            proof {
                lemma_mul_by_zero_is_zero(pow2(h as nat) as int);
                lemma_mul_by_zero_is_zero(pow2(149) as int);
                lemma_round_zero(d);
                lemma_pow2_pos(277);
                lemma_mul_by_zero_is_zero(pow2(0) as int);
            }
            return Single::Finite { negative, significand: 0, shift: 0 };
        }
        let wide: u128 = (a as u128) * 0x1000_0000_0000_0000;
        let p: u128 = wide / (b as u128);
        let rest: u128 = wide % (b as u128);
        let e: i32 = h as i32 + 89 - k as i32;
        proof {
            lemma_fundamental_div_mod(wide as int, b as int);
            assert(p >= 0x200_0000) by (nonlinear_arith)
                requires
                    wide == b * p + rest,
                    0 <= rest < b,
                    b < 0x100_0000,
                    wide >= 0x1000_0000_0000_0000,
                    p >= 0,
            ;
            assert(p * b == b * p) by (nonlinear_arith);
            assert((p + 1) * b == b * p + b) by (nonlinear_arith);
            assert(brackets(wide as int, b as int, p as int, rest != 0));
            let t = pow2((h + 89 + bias()) as nat);
            lemma_pow2_pos((h + 89 + bias()) as nat);
            lemma_brackets_scale(wide as int, b as int, p as int, rest != 0, t as int);
            lemma2_to64_rest();
            lemma_pow2_adds(60, (h + 89 + bias()) as nat);
            lemma_pow2_adds(h as nat, 149);
            lemma_pow2_adds((h + 149) as nat, bias());
            assert(h + 149 + bias() == 60 + (h + 89 + bias()));
            let w = pow2((h + 149 + bias()) as nat);
            assert(n * pow2(bias()) == a * w) by (nonlinear_arith)
                requires
                    n == (a * pow2(h as nat)) * pow2(149),
                    w == (pow2(h as nat) * pow2(149)) * pow2(bias()),
            ;
            assert(a * w == wide * t) by (nonlinear_arith)
                requires
                    w == 0x1000_0000_0000_0000 * t,
                    wide == a * 0x1000_0000_0000_0000,
            ;
            lemma_pow2_adds(k as nat, (e + bias()) as nat);
            assert(k + (e + bias()) == h + 89 + bias());
            lemma_mul_is_associative(b as int, pow2(k as nat) as int, pow2((e + bias()) as nat) as int);
            assert(d * pow2((e + bias()) as nat) == b * t);
        }
        Single::round(negative, p, e, rest != 0, Ghost(n), Ghost(d))
    }

    /// The sum of two singles.
    pub fn plus(self, other: Single) -> (r: Single)
        requires
            self.wf(),
            other.wf(),
        ensures
            r.wf(),
            r@ == self@.plus(other@),
    {
        match (self, other) {
            (Single::Nan, _) => Single::Nan,
            (_, Single::Nan) => Single::Nan,
            (Single::Infinite { negative: s }, Single::Infinite { negative: t }) => {
                if s == t {
                    self
                } else {
                    Single::Nan
                }
            },
            (Single::Infinite { .. }, _) => self,
            (_, Single::Infinite { .. }) => other,
            (
                Single::Finite { negative: s, significand: a, shift: h },
                Single::Finite { negative: t, significand: b, shift: k },
            ) => {
                if h >= k {
                    Single::plus_finite(s, a, h, t, b, k)
                } else {
                    Single::plus_finite(t, b, k, s, a, h)
                }
            },
        }
    }

    fn plus_finite(s: bool, a: u32, h: u32, t: bool, b: u32, k: u32) -> (r: Single)
        requires
            a < 0x100_0000,
            b < 0x100_0000,
            k <= h <= 253,
        ensures
            r.wf(),
            r@ == (Single::Finite { negative: s, significand: a, shift: h })@.plus(
                (Single::Finite { negative: t, significand: b, shift: k })@,
            ),
    {
        let ghost x = (a as nat) * pow2(h as nat);
        let ghost y = (b as nat) * pow2(k as nat);
        proof {
            lemma_zero_units(a, h);
            lemma_zero_units(b, k);
            lemma_pow2_pos(k as nat);
            lemma_pow2_pos(h as nat);
            lemma_mul_by_zero_is_zero(pow2(0) as int);
        }
        if a == 0 && b == 0 {
            return Single::Finite { negative: s && t, significand: 0, shift: 0 };
        }
        if b == 0 {
            return Single::exact(s, a as u128, h);
        }
        if a == 0 {
            return Single::exact(t, b as u128, k);
        }
        if h - k <= 64 {
            let gap: u32 = h - k;
            let scale: u128 = power_of_two(gap);
            proof {
                lemma2_to64();
                if gap < 64 {
                    lemma_pow2_strictly_increases(gap as nat, 64);
                }
                lemma_pow2_adds(gap as nat, k as nat);
                assert(a * scale <= 0x100_0000 * 0x1_0000_0000_0000_0000) by (nonlinear_arith)
                    requires
                        a < 0x100_0000,
                        0 <= scale <= 0x1_0000_0000_0000_0000,
                ;
            }
            let wide: u128 = (a as u128) * scale;
            let small: u128 = b as u128;
            proof {
                let g = pow2(k as nat) as int;
                assert(x == wide * g) by (nonlinear_arith)
                    requires
                        x == a * pow2(h as nat),
                        pow2(h as nat) == scale * g,
                        wide == a * scale,
                ;
                assert((wide + small) * g == wide * g + small * g) by (nonlinear_arith);
                assert((wide - small) * g == wide * g - small * g) by (nonlinear_arith);
                assert((small - wide) * g == small * g - wide * g) by (nonlinear_arith);
                assert(wide < small ==> wide * g < small * g) by (nonlinear_arith)
                    requires
                        g > 0,
                ;
                assert(wide > small ==> wide * g > small * g) by (nonlinear_arith)
                    requires
                        g > 0,
                ;
                assert(wide > 0 ==> wide * g > 0) by (nonlinear_arith)
                    requires
                        g > 0,
                ;
            }
            if s == t {
                Single::exact(s, wide + small, k)
            } else if wide > small {
                Single::exact(s, wide - small, k)
            } else if wide < small {
                Single::exact(t, small - wide, k)
            } else {
                Single::Finite { negative: false, significand: 0, shift: 0 }
            }
        } else {
            let wide: u128 = (a as u128) * 0x100_0000_0000;
            let e: i32 = h as i32 - 40;
            let p: u128 = if s == t {
                wide
            } else {
                wide - 1
            };
            let ghost n = if s == t {
                x + y
            } else {
                (x - y) as nat
            };
            proof {
                lemma2_to64();
                lemma2_to64_rest();
                let c = pow2((e + bias()) as nat) as int;
                let z = pow2(bias()) as int;
                lemma_pow2_pos((e + bias()) as nat);
                lemma_pow2_pos(bias());
                lemma_pow2_adds(40, (e + bias()) as nat);
                lemma_pow2_adds(h as nat, bias());
                assert(40 + (e + bias()) == h + bias());
                assert(x * z == wide * c) by (nonlinear_arith)
                    requires
                        x == a * pow2(h as nat),
                        pow2(h as nat) * z == 0x100_0000_0000 * c,
                        wide == a * 0x100_0000_0000,
                ;
                lemma_pow2_adds(24, k as nat);
                lemma_pow2_adds((24 + k) as nat, bias());
                lemma_pow2_strictly_increases((24 + k + bias()) as nat, (e + bias()) as nat);
                assert(y * z < c) by (nonlinear_arith)
                    requires
                        y == b * pow2(k as nat),
                        b < 0x100_0000,
                        z > 0,
                        pow2(k as nat) > 0,
                        0x100_0000 * pow2(k as nat) * z < c,
                ;
                assert(y * z > 0) by (nonlinear_arith)
                    requires
                        y > 0,
                        z > 0,
                ;
                assert((x + y) * z == x * z + y * z) by (nonlinear_arith);
                assert((x - y) * z == x * z - y * z) by (nonlinear_arith);
                assert((wide + 1) * c == wide * c + c) by (nonlinear_arith);
                assert((wide - 1) * c == wide * c - c) by (nonlinear_arith);
                assert(wide * c >= c) by (nonlinear_arith)
                    requires
                        wide >= 1,
                        c > 0,
                ;
                assert(x > y) by (nonlinear_arith)
                    requires
                        x * z >= c,
                        y * z < c,
                        z > 0,
                ;
            }
            Single::round(s, p, e, true, Ghost(n), Ghost(1))
        }
    }

    /// The bits of this number; the quiet NaN where it is none.
    pub fn to_bits(self) -> (r: u32)
        requires
            self.wf(),
        ensures
            decode(r) == self@,
            self@ == Real::Nan ==> r == 0x7fc0_0000,
    {
        match self {
            Single::Nan => 0x7fc0_0000,
            Single::Infinite { negative } => if negative {
                0xff80_0000
            } else {
                0x7f80_0000
            },
            Single::Finite { negative, significand, shift } => {
                let ghost units = significand as nat * pow2(shift as nat);
                let mut digits: u32 = significand;
                let mut exponent: u32 = shift;
                while digits < 0x80_0000 && exponent > 0
                    invariant
                        digits < 0x100_0000,
                        exponent <= 253,
                        units == digits as nat * pow2(exponent as nat),
                    decreases exponent,
                {
                    proof {
                        lemma_pow2_unfold(exponent as nat);
                        let p = pow2((exponent - 1) as nat);
                        assert(digits * (2 * p) == (2 * digits) * p) by (nonlinear_arith);
                    }
                    digits = 2 * digits;
                    exponent = exponent - 1;
                }
                proof {
                    lemma2_to64();
                    assert(digits * 1 == digits);
                }
                let magnitude: u32 = exponent * 0x80_0000 + digits;
                if negative {
                    0x8000_0000 + magnitude
                } else {
                    magnitude
                }
            },
        }
    }

    /// Whether this compares equal to zero.
    pub fn is_zero(self) -> (r: bool)
        requires
            self.wf(),
        ensures
            r == (self@ matches Real::Finite { units, .. } && units == 0),
    {
        match self {
            Single::Finite { significand, shift, .. } => {
                proof {
                    lemma_zero_units(significand, shift);
                }
                significand == 0
            },
            _ => false,
        }
    }
}

/// 2 to the given power.
fn power_of_two(e: u32) -> (r: u128)
    requires
        e <= 64,
    ensures
        r == pow2(e as nat),
{
    let mut r: u128 = 1;
    let mut i: u32 = 0;
    proof {
        lemma2_to64();
    }
    while i < e
        invariant
            i <= e <= 64,
            r == pow2(i as nat),
            r <= 0x1_0000_0000_0000_0000,
        decreases e - i,
    {
        proof {
            lemma_pow2_unfold((i + 1) as nat);
            lemma2_to64();
            if i + 1 < 64 {
                lemma_pow2_strictly_increases((i + 1) as nat, 64);
            }
        }
        r = r * 2;
        i = i + 1;
    }
    r
}

proof fn lemma_pow2_128()
    ensures
        pow2(128) == u128::MAX + 1,
{
    lemma2_to64();
    lemma_pow2_adds(64, 64);
    assert(pow2(64) * pow2(64) == 0x1_0000_0000_0000_0000 * 0x1_0000_0000_0000_0000);
}

proof fn lemma_round_zero(d: nat)
    requires
        d > 0,
    ensures
        round_units(0, d) == 0,
{
    lemma_div_of0(d as int);
    lemma_small_mod(0, d);
    assert(d * 1 == d);
    assert(0 * quantum(0) == 0);
}

proof fn lemma_zero_units(significand: u32, shift: u32)
    ensures
        ((significand as nat) * pow2(shift as nat) == 0) == (significand == 0),
{
    lemma_pow2_pos(shift as nat);
    lemma_mul_by_zero_is_zero(pow2(shift as nat) as int);
    if significand > 0 {
        lemma_mul_strictly_positive(significand as int, pow2(shift as nat) as int);
    }
}

proof fn lemma_brackets_scale(n: int, d: int, p: int, sticky: bool, t: int)
    requires
        t > 0,
        brackets(n, d, p, sticky),
    ensures
        brackets(n * t, d * t, p, sticky),
{
    assert(p * (d * t) == (p * d) * t) by (nonlinear_arith);
    assert((p + 1) * (d * t) == ((p + 1) * d) * t) by (nonlinear_arith);
    assert((p * d) * t <= n * t < ((p + 1) * d) * t) by (nonlinear_arith)
        requires
            p * d <= n < (p + 1) * d,
            t > 0,
    ;
    assert((n * t == (p * d) * t) == (n == p * d)) by (nonlinear_arith)
        requires
            t > 0,
    ;
}

/// The distance between neighbouring singles around `m` times 2^`j`, where `m` has
/// at most 24 binary digits, is a power of two that divides it.
proof fn lemma_quantum_divides(m: nat, j: nat) -> (k: nat)
    requires
        m < 0x100_0000,
    ensures
        k <= j,
        quantum(m * pow2(j)) == pow2(k),
    decreases j,
{
    lemma2_to64();
    if m * pow2(j) < 0x100_0000 {
        0
    } else {
        if j == 0 {
            assert(m * 1 == m);
        }
        let i = (j - 1) as nat;
        lemma_pow2_unfold(j);
        assert(m * (2 * pow2(i)) == 2 * (m * pow2(i))) by (nonlinear_arith);
        let k = lemma_quantum_divides(m, i);
        lemma_pow2_unfold((k + 1) as nat);
        k + 1
    }
}

/// `units` has at most 24 significant binary digits.
pub open spec fn representable(units: nat) -> bool {
    exists|m: nat, j: nat| m < 0x100_0000 && units == #[trigger] (m * pow2(j))
}

/// A number of units with at most 24 significant binary digits is not rounded.
pub proof fn lemma_exact(units: nat, d: nat)
    requires
        representable(units),
        d > 0,
    ensures
        round_units(units * d, d) == units,
{
    let (m, j) = choose|m: nat, j: nat| m < 0x100_0000 && units == #[trigger] (m * pow2(j));
    let k = lemma_quantum_divides(m, j);
    let g = pow2(k);
    let q = m * pow2((j - k) as nat);
    lemma_pow2_pos(k);
    lemma_pow2_adds((j - k) as nat, k);
    assert(units == q * g) by (nonlinear_arith)
        requires
            units == m * pow2(j),
            pow2(j) == pow2((j - k) as nat) * g,
            q == m * pow2((j - k) as nat),
    ;
    assert(units * d == q * (d * g)) by (nonlinear_arith)
        requires
            units == q * g,
    ;
    lemma_mul_strictly_positive(d as int, g as int);
    lemma_fundamental_div_mod_converse((units * d) as int, d as int, units as int, 0);
    lemma_fundamental_div_mod_converse((units * d) as int, (d * g) as int, q as int, 0);
}

/// The distance between neighbouring singles around `t` units leaves 24 significant
/// binary digits, fewer only where it is one unit.
proof fn lemma_quantum_range(t: nat) -> (k: nat)
    ensures
        quantum(t) == pow2(k),
        t / pow2(k) < 0x100_0000,
        k > 0 ==> t / pow2(k) >= 0x80_0000,
    decreases t,
{
    lemma2_to64();
    if t < 0x100_0000 {
        assert(t / 1 == t);
        0
    } else {
        let k = lemma_quantum_range(t / 2);
        lemma_pow2_unfold((k + 1) as nat);
        lemma_pow2_pos(k);
        lemma_div_denominator(t as int, 2, pow2(k) as int);
        if k == 0 {
            assert((t / 2) / 1 == t / 2);
        }
        k + 1
    }
}

proof fn lemma_nearest_monotone(n: nat, m: nat, d: nat)
    requires
        n <= m,
        d > 0,
    ensures
        nearest_even(n, d) <= nearest_even(m, d),
{
    lemma_fundamental_div_mod(n as int, d as int);
    lemma_fundamental_div_mod(m as int, d as int);
    lemma_mod_bound(n as int, d as int);
    lemma_mod_bound(m as int, d as int);
    lemma_div_is_ordered(n as int, m as int, d as int);
}

/// Rounding keeps the order of numbers.
pub proof fn lemma_round_monotone(n: nat, m: nat, d: nat)
    requires
        n <= m,
        d > 0,
    ensures
        round_units(n, d) <= round_units(m, d),
{
    let k = lemma_quantum_range(n / d);
    let l = lemma_quantum_range(m / d);
    let g = pow2(k);
    let h = pow2(l);
    lemma_pow2_pos(k);
    lemma_pow2_pos(l);
    lemma_mul_strictly_positive(d as int, g as int);
    lemma_mul_strictly_positive(d as int, h as int);
    lemma_div_is_ordered(n as int, m as int, d as int);
    lemma_div_denominator(n as int, d as int, g as int);
    lemma_div_denominator(m as int, d as int, h as int);
    let a = nearest_even(n, d * g);
    let b = nearest_even(m, d * h);
    if k == l {
        lemma_nearest_monotone(n, m, d * g);
        assert(a * g <= b * g) by (nonlinear_arith)
            requires
                a <= b,
        ;
    } else if k < l {
        lemma_doubled(k, l);
        assert(a * g <= b * h) by (nonlinear_arith)
            requires
                a <= 0x100_0000,
                b >= 0x80_0000,
                2 * g <= h,
        ;
    } else {
        lemma_doubled(l, k);
        lemma_fundamental_div_mod((n / d) as int, g as int);
        lemma_fundamental_div_mod((m / d) as int, h as int);
        lemma_mod_bound((n / d) as int, g as int);
        lemma_mod_bound((m / d) as int, h as int);
        let p = (n / d) / g;
        let q = (m / d) / h;
        assert(h * q + h <= g * p) by (nonlinear_arith)
            requires
                q < 0x100_0000,
                p >= 0x80_0000,
                2 * h <= g,
                h > 0,
        ;
    }
}

proof fn lemma_doubled(k: nat, l: nat)
    requires
        k < l,
    ensures
        2 * pow2(k) <= pow2(l),
{
    lemma_pow2_unfold((k + 1) as nat);
    if k + 1 < l {
        lemma_pow2_strictly_increases((k + 1) as nat, l);
    }
}

/// A rounded number of units has at most 24 significant binary digits.
pub proof fn lemma_round_representable(n: nat, d: nat)
    requires
        d > 0,
    ensures
        representable(round_units(n, d)),
{
    let k = lemma_quantum_range(n / d);
    let g = pow2(k);
    lemma_pow2_pos(k);
    lemma_div_denominator(n as int, d as int, g as int);
    let a = nearest_even(n, d * g);
    if a < 0x100_0000 {
        assert(round_units(n, d) == a * pow2(k));
    } else {
        lemma_pow2_unfold((k + 1) as nat);
        assert(a == 0x100_0000);
        assert(0x100_0000 * g == 0x80_0000 * (2 * g));
        assert(round_units(n, d) == 0x80_0000nat * pow2((k + 1) as nat));
    }
}

/// A single is a significand of at most 24 binary digits times a power of two.
pub proof fn lemma_decode_parts(bits: u32) -> (parts: (nat, nat))
    requires
        decode(bits) is Finite,
    ensures
        parts.0 < 0x100_0000,
        parts.1 <= 253,
        decode(bits)->units == parts.0 * pow2(parts.1),
        representable(decode(bits)->units),
        decode(bits)->units < pow2(277),
{
    lemma2_to64();
    let exponent = (bits / 0x80_0000) % 256;
    let fraction = bits % 0x80_0000;
    let (m, j) = if exponent == 0 {
        (fraction as nat, 0nat)
    } else {
        ((0x80_0000 + fraction) as nat, (exponent - 1) as nat)
    };
    assert(fraction as nat * 1 == fraction);
    lemma_pow2_pos(j);
    lemma_pow2_adds(24, j);
    assert(m * pow2(j) < 0x100_0000 * pow2(j)) by (nonlinear_arith)
        requires
            m < 0x100_0000,
            pow2(j) > 0,
    ;
    if j < 253 {
        lemma_pow2_strictly_increases((24 + j) as nat, 277);
    }
    (m, j)
}

/// The single 1.0 is 2^149 units.
proof fn lemma_one()
    ensures
        decode(ONE_BITS) == (Real::Finite { negative: false, units: pow2(149) }),
{
    lemma2_to64();
    lemma_pow2_adds(23, 126);
}

/// Multiplying a single by one, or dividing it by one, leaves it as it is.
pub proof fn lemma_one_is_neutral(bits: u32)
    ensures
        decode(bits).times(decode(ONE_BITS)) == decode(bits),
        decode(bits).over(decode(ONE_BITS)) == decode(bits),
{
    lemma_one();
    lemma_pow2_pos(149);
    if decode(bits) is Finite {
        let (m, j) = lemma_decode_parts(bits);
        lemma_exact(m * pow2(j), pow2(149));
    }
}

/// Multiplication commutes.
pub proof fn lemma_times_commutes(a: Real, b: Real)
    ensures
        a.times(b) == b.times(a),
{
    match (a, b) {
        (Real::Finite { units: m, .. }, Real::Finite { units: n, .. }) => {
            lemma_mul_is_commutative(m as int, n as int);
        },
        _ => {},
    }
}

/// Addition commutes.
pub proof fn lemma_plus_commutes(a: Real, b: Real)
    ensures
        a.plus(b) == b.plus(a),
{
}

/// Distinct bits stand for distinct numbers, except where they stand for none:
/// [`Single::to_bits`] gives back the bits that [`Single::from_bits`] has read.
pub proof fn lemma_decode_injective(a: u32, b: u32)
    requires
        decode(a) == decode(b),
        decode(a) != Real::Nan,
    ensures
        a == b,
{
    let e = ((a / 0x80_0000) % 256) as int;
    let f = ((b / 0x80_0000) % 256) as int;
    let m = (a % 0x80_0000) as int;
    let n = (b % 0x80_0000) as int;
    if decode(a) is Finite {
        lemma2_to64();
        if e > 0 {
            lemma_pow2_pos((e - 1) as nat);
        }
        if f > 0 {
            lemma_pow2_pos((f - 1) as nat);
        }
        if e == 0 || f == 0 {
            if e > 0 {
                assert((0x80_0000 + m) * pow2((e - 1) as nat) >= 0x80_0000) by (nonlinear_arith)
                    requires
                        m >= 0,
                        pow2((e - 1) as nat) >= 1,
                ;
            }
            if f > 0 {
                assert((0x80_0000 + n) * pow2((f - 1) as nat) >= 0x80_0000) by (nonlinear_arith)
                    requires
                        n >= 0,
                        pow2((f - 1) as nat) >= 1,
                ;
            }
        } else {
            if e < f {
                lemma_normal_order(m, n, e, f);
            } else if f < e {
                lemma_normal_order(n, m, f, e);
            }
            let p = pow2((e - 1) as nat) as int;
            assert(m == n) by (nonlinear_arith)
                requires
                    (0x80_0000 + m) * p == (0x80_0000 + n) * p,
                    p > 0,
            ;
        }
    }
}

proof fn lemma_normal_order(m: int, n: int, e: int, f: int)
    requires
        0 <= m < 0x80_0000,
        0 <= n,
        1 <= e < f,
    ensures
        (0x80_0000 + m) * pow2((e - 1) as nat) < (0x80_0000 + n) * pow2((f - 1) as nat),
{
    let p = pow2((e - 1) as nat) as int;
    let q = pow2((f - 1) as nat) as int;
    let g = pow2((f - e) as nat) as int;
    lemma_pow2_pos((e - 1) as nat);
    lemma_pow2_adds((e - 1) as nat, (f - e) as nat);
    lemma2_to64();
    lemma_pow2_unfold((f - e) as nat);
    lemma_pow2_pos((f - e - 1) as nat);
    assert((0x80_0000 + m) * p < (0x80_0000 + n) * q) by (nonlinear_arith)
        requires
            q == p * g,
            g >= 2,
            p > 0,
            0 <= m < 0x80_0000,
            0 <= n,
    ;
}

/// Rounding changes a number by at most half the distance between its neighbours.
pub proof fn lemma_round_error(n: nat, d: nat)
    requires
        d > 0,
    ensures
        -(d * quantum(n / d)) <= 2 * (round_units(n, d) * d - n) <= d * quantum(n / d),
{
    let k = lemma_quantum_range(n / d);
    let g = pow2(k);
    lemma_pow2_pos(k);
    let dg = d * g;
    lemma_mul_strictly_positive(d as int, g as int);
    lemma_fundamental_div_mod(n as int, dg as int);
    lemma_mod_bound(n as int, dg as int);
    let a = nearest_even(n, dg);
    let q = n / dg;
    assert(dg * (q + 1) == dg * q + dg) by (nonlinear_arith);
    assert(-dg <= 2 * (dg * a - n) <= dg);
    assert((a * g) * d == dg * a) by (nonlinear_arith)
        requires
            dg == d * g,
    ;
}

/// Rounding a whole number of units changes it by at most one part in 2^24.
pub proof fn lemma_round_whole(n: nat)
    ensures
        -(n as int) <= 0x100_0000 * (round_units(n, 1) - n) <= n,
{
    let k = lemma_quantum_range(n);
    let g = pow2(k);
    lemma_pow2_pos(k);
    assert(n / 1 == n);
    lemma_round_error(n, 1);
    if k == 0 {
        lemma2_to64();
        lemma_exact_units(n);
    } else {
        lemma_fundamental_div_mod(n as int, g as int);
        lemma_mod_bound(n as int, g as int);
        assert(0x80_0000 * g <= n) by (nonlinear_arith)
            requires
                n as int == g * (n as int / g as int) + n as int % g as int,
                n as int / g as int >= 0x80_0000,
                n as int % g as int >= 0,
                g > 0,
        ;
    }
}

proof fn lemma_exact_units(n: nat)
    requires
        quantum(n) == 1,
    ensures
        round_units(n, 1) == n,
{
    assert(n / 1 == n);
    assert(n % 1 == 0);
}

/// The distance between neighbouring singles does not shrink as they grow.
pub proof fn lemma_quantum_monotone(a: nat, b: nat)
    requires
        a <= b,
    ensures
        quantum(a) <= quantum(b),
    decreases b,
{
    if b >= 0x100_0000 {
        lemma_quantum_monotone(a / 2, b / 2);
        let k = lemma_quantum_range(b / 2);
        lemma_pow2_pos(k);
    }
}

/// Beyond 24 binary digits the distance between neighbouring singles is at most one
/// part in 2^23.
pub proof fn lemma_quantum_bound(t: nat)
    requires
        t >= 0x100_0000,
    ensures
        0x80_0000 * quantum(t) <= t,
{
    let k = lemma_quantum_range(t);
    let g = pow2(k);
    lemma_pow2_pos(k);
    lemma2_to64();
    lemma_fundamental_div_mod(t as int, g as int);
    lemma_mod_bound(t as int, g as int);
    if k == 0 {
        assert(t / 1 == t);
    }
    assert(0x80_0000 * g <= t) by (nonlinear_arith)
        requires
            t as int == g * (t as int / g as int) + t as int % g as int,
            t as int / g as int >= 0x80_0000,
            t as int % g as int >= 0,
            g > 0,
    ;
}

/// Around one the distance between neighbouring singles is at most 2^-23.
pub proof fn lemma_quantum_of_one()
    ensures
        quantum(pow2(149)) == pow2(126),
{
    lemma2_to64();
    lemma_pow2_adds(23, 126);
    lemma_pow2_pos(126);
    lemma_div_by_multiple(0x80_0000, pow2(126) as int);
    lemma_quantum_power(pow2(149), 126);
}

} // verus!
