//! IEEE 754 double-precision numbers, carried as their 64 bits and read
//! exactly: a finite double is an integer multiple of 2^-1074.

use vstd::arithmetic::div_mod::*;
use vstd::arithmetic::power2::*;
use vstd::prelude::*;

verus! {

/// A double-precision number, by its bit pattern.
#[derive(Clone, Copy, PartialEq, Eq, Structural, Debug)]
pub struct Double {
    pub bits: u64,
}

/// How many of the smallest steps between doubles make one.
pub open spec fn unit() -> nat {
    pow2(1074)
}

impl Double {
    pub open spec fn sign_bit(self) -> bool {
        self.bits >= 0x8000_0000_0000_0000
    }

    pub open spec fn exponent(self) -> nat {
        ((self.bits / 0x10_0000_0000_0000) % 0x800) as nat
    }

    pub open spec fn fraction(self) -> nat {
        (self.bits % 0x10_0000_0000_0000) as nat
    }

    /// Neither an infinity nor a NaN.
    pub open spec fn finite(self) -> bool {
        self.exponent() < 0x7FF
    }

    /// Not a number at all.
    pub open spec fn nan(self) -> bool {
        self.exponent() == 0x7FF && self.fraction() != 0
    }

    /// An infinity.
    pub open spec fn infinite(negative: bool) -> Double {
        Double {
            bits: if negative {
                0xFFF0_0000_0000_0000
            } else {
                0x7FF0_0000_0000_0000
            },
        }
    }

    /// The significand, with the leading bit that normal numbers leave out.
    pub open spec fn significand(self) -> nat {
        if self.exponent() == 0 {
            self.fraction()
        } else {
            0x10_0000_0000_0000 + self.fraction()
        }
    }

    /// The power of two, in smallest steps, that the significand counts.
    pub open spec fn shift(self) -> nat {
        if self.exponent() == 0 {
            0
        } else {
            (self.exponent() - 1) as nat
        }
    }

    /// The value of a finite double, times 2^1074: always an integer.
    pub open spec fn scaled(self) -> int {
        let magnitude = (self.significand() * pow2(self.shift())) as int;
        if self.sign_bit() {
            -magnitude
        } else {
            magnitude
        }
    }

    /// The double stands for a whole number.
    pub open spec fn whole(self) -> bool {
        self.scaled() % (unit() as int) == 0
    }
}

fn power_of_two(k: u64) -> (r: u128)
    requires
        k <= 64,
    ensures
        r == pow2(k as nat),
        1 <= r <= 0x1_0000_0000_0000_0000,
{
    let mut r: u128 = 1;
    let mut i: u64 = 0;
    proof {
        lemma2_to64();
        lemma2_to64_rest();
    }
    while i < k
        invariant
            i <= k <= 64,
            r == pow2(i as nat),
            pow2(64) == 0x1_0000_0000_0000_0000,
        decreases k - i,
    {
        proof {
            lemma_pow2_unfold((i + 1) as nat);
            if i + 1 < 64 {
                lemma_pow2_strictly_increases((i + 1) as nat, 64);
            }
        }
        r = r * 2;
        i = i + 1;
    }
    proof {
        lemma_pow2_pos(k as nat);
        if k < 64 {
            lemma_pow2_strictly_increases(k as nat, 64);
        }
    }
    r
}

/// `a * p` splits by `p * k` as `a` splits by `k`.
proof fn lemma_scale(a: nat, k: nat, p: nat)
    requires
        k > 0,
        p > 0,
    ensures
        p * k > 0,
        ((a * p) as int) / ((p * k) as int) == (a / k) as int,
        (((a * p) as int) % ((p * k) as int) == 0) == (a % k == 0),
{
    assert(p * k > 0) by (nonlinear_arith)
        requires
            p > 0,
            k > 0,
    ;
    let q = (a / k) as int;
    let r = (a % k) as int;
    assert(a == q * k + r) by (nonlinear_arith)
        requires
            k > 0,
            q == (a / k) as int,
            r == (a % k) as int,
    ;
    assert(a * p == q * (p * k) + r * p) by (nonlinear_arith)
        requires
            a == q * k + r,
    ;
    assert(0 <= r * p < p * k) by (nonlinear_arith)
        requires
            0 <= r < k,
            p > 0,
    ;
    lemma_fundamental_div_mod_converse(
        (a * p) as int,
        (p * k) as int,
        q,
        r * p,
    );
    assert((r * p == 0) == (r == 0)) by (nonlinear_arith)
        requires
            p > 0,
            r >= 0,
    ;
}

impl Double {
    pub fn infinity(negative: bool) -> (r: Double)
        ensures
            r == Double::infinite(negative),
            !r.finite(),
            !r.nan(),
    {
        Double {
            bits: if negative {
                0xFFF0_0000_0000_0000
            } else {
                0x7FF0_0000_0000_0000
            },
        }
    }

    pub fn is_nan(self) -> (r: bool)
        ensures
            r == self.nan(),
    {
        (self.bits / 0x10_0000_0000_0000) % 0x800 == 0x7FF && self.bits % 0x10_0000_0000_0000 != 0
    }

    pub fn is_finite(self) -> (r: bool)
        ensures
            r == self.finite(),
    {
        (self.bits / 0x10_0000_0000_0000) % 0x800 < 0x7FF
    }

    /// Splits a finite double into its sign, the whole part of its size
    /// (`cap` where it is larger), and whether there is nothing behind it.
    fn parts(self) -> (r: (bool, u128, bool))
        requires
            self.finite(),
        ensures
            r.0 == self.sign_bit(),
            ({
                let size = if self.sign_bit() { -self.scaled() } else { self.scaled() };
                &&& size >= 0
                &&& r.1 == if size / (unit() as int) <= 0x2_0000_0000_0000_0000 {
                    size / (unit() as int)
                } else {
                    0x2_0000_0000_0000_0000
                }
                &&& r.2 == (size % (unit() as int) == 0)
                &&& r.2 == self.whole()
            }),
    {
        let sign: bool = self.bits >= 0x8000_0000_0000_0000;
        let e: u64 = (self.bits / 0x10_0000_0000_0000) % 0x800;
        let f: u64 = self.bits % 0x10_0000_0000_0000;
        let m: u64 = if e == 0 {
            f
        } else {
            0x10_0000_0000_0000 + f
        };
        let s: u64 = if e == 0 {
            0
        } else {
            e - 1
        };
        let ghost size = (self.significand() * pow2(self.shift())) as int;
        proof {
            lemma_pow2_pos(self.shift());
            lemma_pow2_pos(1074);
            assert(size >= 0) by (nonlinear_arith)
                requires
                    size == self.significand() * pow2(self.shift()),
            ;
            if self.sign_bit() {
                lemma_negative_multiple(size, unit() as int);
            }
        }
        if s >= 1074 {
            let k: u64 = s - 1074;
            proof {
                // size is (m * 2^k) * 2^1074
                lemma_pow2_adds(k as nat, 1074);
                let a = m * pow2(k as nat);
                assert(size == a * unit()) by (nonlinear_arith)
                    requires
                        size == m * (pow2(k as nat) * unit()),
                        a == m * pow2(k as nat),
                ;
                lemma_pow2_pos(k as nat);
                assert(a >= 0) by (nonlinear_arith)
                    requires
                        a == m * pow2(k as nat),
                ;
                lemma_fundamental_div_mod_converse(
                    size,
                    unit() as int,
                    a as int,
                    0,
                );
            }
            if k <= 64 {
                let p: u128 = power_of_two(k);
                assert(m as u128 * p <= 0x1F_FFFF_FFFF_FFFF * 0x1_0000_0000_0000_0000)
                    by (nonlinear_arith)
                    requires
                        m <= 0x1F_FFFF_FFFF_FFFF,
                        p <= 0x1_0000_0000_0000_0000,
                ;
                let w: u128 = m as u128 * p;
                let capped: u128 = if w <= 0x2_0000_0000_0000_0000 {
                    w
                } else {
                    0x2_0000_0000_0000_0000
                };
                (sign, capped, true)
            } else {
                proof {
                    lemma2_to64();
                    lemma2_to64_rest();
                    lemma_pow2_strictly_increases(64, k as nat);
                    assert(m * pow2(k as nat) > 0x2_0000_0000_0000_0000) by (nonlinear_arith)
                        requires
                            m >= 0x10_0000_0000_0000,
                            pow2(k as nat) > 0x1_0000_0000_0000_0000,
                    ;
                }
                (sign, 0x2_0000_0000_0000_0000, true)
            }
        } else {
            let k: u64 = 1074 - s;
            proof {
                lemma_pow2_adds(s as nat, k as nat);
                lemma_pow2_pos(k as nat);
                lemma_scale(m as nat, pow2(k as nat), pow2(s as nat));
            }
            if k <= 64 {
                let p: u128 = power_of_two(k);
                let w: u128 = m as u128 / p;
                let exact: bool = m as u128 % p == 0;
                assert(w <= m) by (nonlinear_arith)
                    requires
                        w == m as u128 / p,
                        p >= 1,
                ;
                (sign, w, exact)
            } else {
                proof {
                    lemma2_to64();
                    lemma2_to64_rest();
                    lemma_pow2_strictly_increases(64, k as nat);
                    let p = pow2(k as nat) as int;
                    lemma_small_mod(m as nat, pow2(k as nat));
                    lemma_basic_div(m as int, p);
                }
                (sign, 0, m == 0)
            }
        }
    }
}

/// Where a number lies against a whole one, by its quotient and remainder.
proof fn lemma_against_whole(a: int, n: int, d: int)
    requires
        d > 0,
        a >= 0,
        n >= 0,
    ensures
        (a > n * d) == (a / d > n || (a / d == n && a % d != 0)),
        (a < n * d) == (a / d < n),
{
    let q = a / d;
    let r = a % d;
    assert(a == q * d + r && 0 <= r < d) by (nonlinear_arith)
        requires
            d > 0,
            q == a / d,
            r == a % d,
    ;
    if q > n {
        assert(q * d >= n * d + d) by (nonlinear_arith)
            requires
                q >= n + 1,
                d > 0,
        ;
    } else if q < n {
        assert(q * d + d <= n * d) by (nonlinear_arith)
            requires
                q + 1 <= n,
                d > 0,
        ;
    }
}

/// What is at least one and at most `n` has a whole part from one to `n`.
pub proof fn lemma_at_most(scaled: int, n: int)
    requires
        unit() <= scaled <= n * unit(),
        n >= 0,
    ensures
        1 <= scaled / (unit() as int) <= n,
{
    lemma_pow2_pos(1074);
    lemma_against_whole(scaled, n, unit() as int);
    lemma_against_whole(scaled, 1, unit() as int);
}

/// A number of at most `n` has no whole part beyond it, and one with that whole
/// part is `n`.
pub proof fn lemma_at_most_or_none(scaled: int, n: int)
    requires
        0 <= scaled <= n * unit(),
        n >= 0,
    ensures
        scaled / (unit() as int) <= n,
        scaled / (unit() as int) == n ==> scaled == n * unit(),
{
    lemma_pow2_pos(1074);
    lemma_against_whole(scaled, n, unit() as int);
}

impl Double {
    /// Whether a finite double is greater than zero.
    pub fn is_positive(self) -> (r: bool)
        requires
            self.finite(),
        ensures
            r == (self.scaled() > 0),
    {
        let (negative, whole, exact) = self.parts();
        proof {
            lemma_pow2_pos(1074);
            let size = if negative { -self.scaled() } else { self.scaled() };
            lemma_against_whole(size, 0, unit() as int);
        }
        !negative && (whole > 0 || !exact)
    }

    /// Whether a finite double is a whole number.
    pub fn is_whole(self) -> (r: bool)
        requires
            self.finite(),
        ensures
            r == self.whole(),
    {
        let (_, _, exact) = self.parts();
        exact
    }

    /// Whether a finite double is greater than `n`.
    pub fn exceeds(self, n: u128) -> (r: bool)
        requires
            self.finite(),
            n <= 0x1_0000_0000_0000_0000,
        ensures
            r == (self.scaled() > n * unit()),
    {
        let (negative, whole, exact) = self.parts();
        proof {
            lemma_pow2_pos(1074);
            let size = if negative { -self.scaled() } else { self.scaled() };
            lemma_against_whole(size, n as int, unit() as int);
            assert(n * unit() >= 0) by (nonlinear_arith)
                requires
                    unit() > 0,
                    n >= 0,
            ;
        }
        !negative && (whole > n || (whole == n && !exact))
    }

    /// Whether a finite double is less than one.
    pub fn below_one(self) -> (r: bool)
        requires
            self.finite(),
        ensures
            r == (self.scaled() < unit()),
    {
        let (negative, whole, _) = self.parts();
        proof {
            lemma_pow2_pos(1074);
            let size = if negative { -self.scaled() } else { self.scaled() };
            lemma_against_whole(size, 1, unit() as int);
        }
        negative || whole < 1
    }

    /// The whole part of a finite double that is not negative, or the largest
    /// `u64` where it is larger.
    pub fn whole_part(self) -> (r: u64)
        requires
            self.finite(),
            self.scaled() >= 0,
        ensures
            r == if self.scaled() / (unit() as int) <= u64::MAX {
                self.scaled() / (unit() as int)
            } else {
                u64::MAX as int
            },
    {
        let (_, whole, _) = self.parts();
        proof {
            lemma_pow2_pos(1074);
        }
        if whole <= u64::MAX as u128 {
            whole as u64
        } else {
            u64::MAX
        }
    }
}

proof fn lemma_negative_multiple(a: int, d: int)
    requires
        d > 0,
    ensures
        ((-a) % d == 0) == (a % d == 0),
{
    if a % d == 0 {
        let q = a / d;
        assert(-a == (-q) * d + 0) by (nonlinear_arith)
            requires
                a % d == 0,
                q == a / d,
                d > 0,
        ;
        lemma_fundamental_div_mod_converse(-a, d, -q, 0);
    }
    if (-a) % d == 0 {
        let q = (-a) / d;
        assert(a == (-q) * d + 0) by (nonlinear_arith)
            requires
                (-a) % d == 0,
                q == (-a) / d,
                d > 0,
        ;
        lemma_fundamental_div_mod_converse(a, d, -q, 0);
    }
}

/// A double whose significand is a number shifted by so many bits, and whose
/// exponent takes that back, is that number.
pub proof fn lemma_whole_double(d: Double, n: nat, bits: nat)
    requires
        !d.sign_bit(),
        d.significand() == n * pow2(bits),
        d.shift() + bits == 1074,
    ensures
        d.scaled() == n * unit(),
{
    lemma_pow2_adds(bits, d.shift());
    let (p, q) = (pow2(bits), pow2(d.shift()));
    assert((n * p) * q == n * (p * q)) by (nonlinear_arith);
}

/// The sign bit makes a number negative and nothing else of it.
pub proof fn law_sign_bit_negates(d: Double, negated: Double)
    requires
        negated.bits == d.bits + 0x8000_0000_0000_0000,
    ensures
        d.scaled() >= 0,
        negated.scaled() == -d.scaled(),
        negated.finite() == d.finite(),
        negated.nan() == d.nan(),
        d.finite() ==> (negated.whole() <==> d.whole()),
{
    assert((d.bits + 0x8000_0000_0000_0000) % 0x10_0000_0000_0000 == d.bits
        % 0x10_0000_0000_0000);
    assert(((d.bits + 0x8000_0000_0000_0000) / 0x10_0000_0000_0000) % 0x800 == (d.bits
        / 0x10_0000_0000_0000) % 0x800);
    lemma_pow2_pos(d.shift());
    lemma_pow2_pos(1074);
    assert(d.significand() * pow2(d.shift()) >= 0) by (nonlinear_arith);
    lemma_negative_multiple(d.scaled(), unit() as int);
}

/// Infinities and what is no number are beyond every other double, by their
/// bits.
pub proof fn law_special_doubles(d: Double)
    ensures
        ({
            let size = d.bits % 0x8000_0000_0000_0000;
            &&& d.finite() <==> size < 0x7FF0_0000_0000_0000
            &&& d.nan() <==> size > 0x7FF0_0000_0000_0000
            &&& d == Double::infinite(d.sign_bit()) <==> size == 0x7FF0_0000_0000_0000
        }),
{
    let bits = d.bits as int;
    let f = bits % 0x10_0000_0000_0000;
    let e = (bits / 0x10_0000_0000_0000) % 0x800;
    assert(bits % 0x8000_0000_0000_0000 == e * 0x10_0000_0000_0000 + f);
}

/// Doubles without a sign are ordered like their bits, so that no two are the
/// same number; zero is zero, and one is one.
pub proof fn law_doubles_are_ordered_like_their_bits(a: Double, b: Double)
    requires
        a.bits < b.bits,
        !b.sign_bit(),
        b.finite(),
    ensures
        a.scaled() < b.scaled(),
        (Double { bits: 0 }).scaled() == 0,
        (Double { bits: 0x3FF0_0000_0000_0000 }).scaled() == unit(),
{
    let (x, y) = (a.bits as int, b.bits as int);
    let (ea, eb) = (a.exponent(), b.exponent());
    assert(x == ea * 0x10_0000_0000_0000 + a.fraction());
    assert(y == eb * 0x10_0000_0000_0000 + b.fraction());
    assert(ea <= eb);
    lemma_pow2_pos(a.shift());
    lemma_pow2_pos(b.shift());
    let (p, q) = (pow2(a.shift()) as int, pow2(b.shift()) as int);
    let (m, n) = (a.significand() as int, b.significand() as int);
    if ea == eb {
        assert(m < n);
        assert(m * p < n * p) by (nonlinear_arith)
            requires
                m < n,
                p > 0,
        ;
    } else if ea == 0 {
        lemma2_to64();
        assert(p == 1);
        assert(m * p < n * q) by (nonlinear_arith)
            requires
                p == 1,
                q >= 1,
                0 <= m < n,
        ;
    } else {
        if a.shift() + 1 < b.shift() {
            lemma_pow2_strictly_increases(a.shift() + 1, b.shift());
        }
        lemma_pow2_unfold(a.shift() + 1);
        assert(q >= 2 * p);
        assert(m * p < n * q) by (nonlinear_arith)
            requires
                q >= 2 * p,
                p > 0,
                0 <= m < 2 * n,
                n > 0,
        ;
    }
    lemma2_to64();
    lemma2_to64_rest();
    let one = Double { bits: 0x3FF0_0000_0000_0000 };
    assert(one.exponent() == 1023 && one.fraction() == 0);
    lemma_whole_double(one, 1, 52);
    let zero = Double { bits: 0 };
    assert(zero.significand() == 0);
    assert(zero.significand() * pow2(zero.shift()) == 0) by (nonlinear_arith)
        requires
            zero.significand() == 0,
    ;
}

} // verus!
