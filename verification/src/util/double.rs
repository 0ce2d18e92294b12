//! Double-precision arithmetic on numbers that are not negative, carried out in integers.
//!
//! Times are turned into frame numbers and back in double precision. Every operation rounds its
//! exact result to the nearest number of 53 significant bits, and of two equally near ones to
//! the even one.

use vstd::prelude::*;

use crate::util::clock;
use crate::util::clock::{round_nearest, round_nearest_even, NANOS_PER_SEC};

verus! {

/// The least number of 53 bits.
pub const LEAST: u128 = 0x10_0000_0000_0000;

/// The least number of 54 bits.
pub const BEYOND: u128 = 0x20_0000_0000_0000;

/// A number, as a fraction.
pub struct Fraction {
    pub num: nat,
    pub den: nat,
}

/// The double nearest to `num / den`: the fraction is doubled or halved until 53 bits stand
/// before the point, rounded there, and brought back.
pub open spec fn double(num: nat, den: nat) -> Fraction
    decreases
            if num < LEAST * den {
                1nat
            } else {
                0nat
            },
            if num < LEAST * den {
                LEAST * den - num
            } else {
                num - LEAST * den
            },
{
    if num == 0 || den == 0 {
        Fraction { num: 0, den: 1 }
    } else if num < LEAST * den {
        let f = double(2 * num, den);
        Fraction { num: f.num, den: 2 * f.den }
    } else if num >= BEYOND * den {
        let f = double(num, 2 * den);
        Fraction { num: 2 * f.num, den: f.den }
    } else {
        Fraction { num: clock::nearest_even(num, den), den: 1 }
    }
}

proof fn lemma_halves_round_alike(num: nat, den: nat)
    requires
        den > 0,
    ensures
        clock::nearest_even(2 * num, 2 * den) == clock::nearest_even(num, den),
{
    let q = num / den;
    let r = num % den;
    assert((2 * num) / (2 * den) == q && (2 * num) % (2 * den) == 2 * r) by (nonlinear_arith)
        requires
            den > 0,
            q == num / den,
            r == num % den,
    ;
}

/// A fraction that is not in lowest terms gives the same double.
proof fn lemma_double_scales(num: nat, den: nat)
    requires
        den > 0,
    ensures
        double(2 * num, 2 * den) == double(num, den),
    decreases
            if num < LEAST * den {
                1nat
            } else {
                0nat
            },
            if num < LEAST * den {
                LEAST * den - num
            } else {
                num - LEAST * den
            },
{
    if num == 0 {
    } else if num < LEAST * den {
        lemma_double_scales(2 * num, den);
    } else if num >= BEYOND * den {
        lemma_double_scales(num, 2 * den);
    } else {
        lemma_halves_round_alike(num, den);
    }
}

proof fn lemma_rounded_53(num: nat, den: nat)
    requires
        den > 0,
        LEAST * den <= num < BEYOND * den,
    ensures
        LEAST <= clock::nearest_even(num, den) <= BEYOND,
        clock::nearest_even(num, den) * den <= 2 * num,
        2 * num - den <= 2 * (clock::nearest_even(num, den) * den) <= 2 * num + den,
{
    let q = num / den;
    let r = num % den;
    let m = clock::nearest_even(num, den);
    assert(num == q * den + r && 0 <= r < den && LEAST <= q < BEYOND) by (nonlinear_arith)
        requires
            den > 0,
            LEAST * den <= num < BEYOND * den,
            q == num / den,
            r == num % den,
    ;
    assert((q + 1) * den == q * den + den) by (nonlinear_arith);
    assert(q * den >= den) by (nonlinear_arith)
        requires
            q >= 1,
            den > 0,
    ;
}

/// A double has a denominator, and it is no larger than 53 bits call for.
pub proof fn lemma_double_is_small(num: nat, den: nat)
    requires
        den > 0,
    ensures
        double(num, den).den > 0,
        double(num, den).den == 1 || double(num, den).den * num < BEYOND * den,
        num < LEAST * den ==> double(num, den).num <= BEYOND,
        num >= LEAST * den ==> double(num, den).den == 1 && double(num, den).num * den <= 2 * num,
        num > 0 ==> double(num, den).num >= LEAST,
    decreases
            if num < LEAST * den {
                1nat
            } else {
                0nat
            },
            if num < LEAST * den {
                LEAST * den - num
            } else {
                num - LEAST * den
            },
{
    if num == 0 {
    } else if num < LEAST * den {
        lemma_double_is_small(2 * num, den);
        let f = double(2 * num, den);
        assert((2 * f.den) * num == f.den * (2 * num)) by (nonlinear_arith);
        if 2 * num >= LEAST * den {
            lemma_rounded_53(2 * num, den);
        }
    } else if num >= BEYOND * den {
        lemma_double_is_small(num, 2 * den);
        let f = double(num, 2 * den);
        assert((2 * f.num) * den == f.num * (2 * den)) by (nonlinear_arith);
    } else {
        lemma_rounded_53(num, den);
    }
}

/// `a` is off from `b` by at most `parts` parts in 2 to the 53rd.
pub open spec fn near(a: Fraction, b: Fraction, parts: nat) -> bool {
    &&& a.den > 0
    &&& b.den > 0
    &&& BEYOND * (a.num * b.den - b.num * a.den) <= parts * (b.num * a.den)
    &&& BEYOND * (b.num * a.den - a.num * b.den) <= parts * (b.num * a.den)
}

/// A double is off by at most one part in 2 to the 53rd.
pub proof fn lemma_double_is_near(num: nat, den: nat)
    requires
        den > 0,
    ensures
        near(double(num, den), Fraction { num, den }, 1),
    decreases
            if num < LEAST * den {
                1nat
            } else {
                0nat
            },
            if num < LEAST * den {
                LEAST * den - num
            } else {
                num - LEAST * den
            },
{
    let r = double(num, den);
    if num == 0 {
        assert(r.num * den == 0 && num * r.den == 0) by (nonlinear_arith)
            requires
                r.num == 0,
                num == 0,
        ;
    } else if num < LEAST * den {
        lemma_double_is_near(2 * num, den);
        let f = double(2 * num, den);
        assert((2 * num) * f.den == num * (2 * f.den)) by (nonlinear_arith);
    } else if num >= BEYOND * den {
        lemma_double_is_near(num, 2 * den);
        let f = double(num, 2 * den);
        assert(f.num * (2 * den) == (2 * f.num) * den) by (nonlinear_arith);
    } else {
        lemma_rounded_53(num, den);
        assert(num * r.den == num) by (nonlinear_arith)
            requires
                r.den == 1,
        ;
    }
}

/// A whole number of at most 53 bits is a double itself.
pub proof fn lemma_whole_is_double(whole: nat, den: nat)
    requires
        den > 0,
        whole < BEYOND,
    ensures
        double(whole * den, den).den > 0,
        double(whole * den, den).num == whole * double(whole * den, den).den,
    decreases BEYOND - whole,
{
    let num = whole * den;
    let f = double(num, den);
    if whole == 0 {
        assert(num == 0) by (nonlinear_arith)
            requires
                num == whole * den,
                whole == 0,
        ;
        assert(whole * f.den == 0) by (nonlinear_arith)
            requires
                whole == 0,
        ;
    } else {
        assert(num > 0) by (nonlinear_arith)
            requires
                num == whole * den,
                whole > 0,
                den > 0,
        ;
        if whole < LEAST {
            assert(num < LEAST * den) by (nonlinear_arith)
                requires
                    num == whole * den,
                    whole < LEAST,
                    den > 0,
            ;
            assert((2 * whole) * den == 2 * num) by (nonlinear_arith)
                requires
                    num == whole * den,
            ;
            lemma_whole_is_double(2 * whole, den);
            let g = double(2 * num, den);
            assert((2 * whole) * g.den == whole * (2 * g.den)) by (nonlinear_arith);
        } else {
            assert(LEAST * den <= num < BEYOND * den && num / den == whole && num % den == 0)
                by (nonlinear_arith)
                requires
                    num == whole * den,
                    LEAST <= whole < BEYOND,
                    den > 0,
            ;
        }
    }
}

proof fn lemma_near_chains(a: Fraction, b: Fraction, c: Fraction, p: nat, q: nat)
    requires
        near(a, b, p),
        near(b, c, q),
        p * q <= BEYOND,
    ensures
        near(a, c, p + q + 1),
{
    let h = BEYOND as int;
    let u = a.num * b.den - b.num * a.den;
    let v = b.num * c.den - c.num * b.den;
    let w = a.num * c.den - c.num * a.den;
    // What the parts are taken of.
    let base = c.num * a.den * b.den;
    assert(w * b.den == u * c.den + v * a.den) by (nonlinear_arith)
        requires
            u == a.num * b.den - b.num * a.den,
            v == b.num * c.den - c.num * b.den,
            w == a.num * c.den - c.num * a.den,
    ;
    let x = b.num * a.den;
    let y = c.num * b.den;
    assert(x * c.den == base + v * a.den && y * a.den == base) by (nonlinear_arith)
        requires
            x == b.num * a.den,
            y == c.num * b.den,
            v == b.num * c.den - c.num * b.den,
            base == c.num * a.den * b.den,
    ;
    let vd = v * a.den;
    let ud = u * c.den;
    assert(h * vd <= q * base && -(h * vd) <= q * base) by (nonlinear_arith)
        requires
            h * v <= q * y,
            -(h * v) <= q * y,
            vd == v * a.den,
            y * a.den == base,
            a.den > 0,
    ;
    assert(h * ud <= p * (base + vd) && -(h * ud) <= p * (base + vd)) by (nonlinear_arith)
        requires
            h * u <= p * x,
            -(h * u) <= p * x,
            ud == u * c.den,
            x * c.den == base + vd,
            c.den > 0,
    ;
    assert(p * vd <= base) by (nonlinear_arith)
        requires
            h * vd <= q * base,
            p * q <= h,
            h > 0,
            base >= 0,
            p >= 0,
            q >= 0,
    ;
    assert(p * (base + vd) == p * base + p * vd) by (nonlinear_arith);
    assert(base >= 0) by (nonlinear_arith)
        requires
            base == c.num * a.den * b.den,
    ;
    let total = p + q + 1;
    assert(total * base == p * base + q * base + base) by (nonlinear_arith)
        requires
            total == p + q + 1,
    ;
    assert(h * (ud + vd) == h * ud + h * vd) by (nonlinear_arith);
    assert(h * w <= total * (c.num * a.den) && -(h * w) <= total * (c.num * a.den))
        by (nonlinear_arith)
        requires
            w * b.den == ud + vd,
            h * (ud + vd) <= total * base,
            -(h * (ud + vd)) <= total * base,
            base == c.num * a.den * b.den,
            b.den > 0,
    ;
}

proof fn lemma_near_sum(a: Fraction, b: Fraction, whole: nat, parts: nat)
    requires
        near(a, b, parts),
    ensures
        near(
            Fraction { num: whole * a.den + a.num, den: a.den },
            Fraction { num: whole * b.den + b.num, den: b.den },
            parts,
        ),
{
    let s = whole * a.den + a.num;
    let t = whole * b.den + b.num;
    assert(s * b.den - t * a.den == a.num * b.den - b.num * a.den && parts * (b.num * a.den)
        <= parts * (t * a.den)) by (nonlinear_arith)
        requires
            s == whole * a.den + a.num,
            t == whole * b.den + b.num,
            whole >= 0,
            parts >= 0,
    ;
}

proof fn lemma_near_product(a: Fraction, b: Fraction, factor: nat, parts: nat)
    requires
        near(a, b, parts),
    ensures
        near(
            Fraction { num: a.num * factor, den: a.den },
            Fraction { num: b.num * factor, den: b.den },
            parts,
        ),
{
    let u = a.num * b.den - b.num * a.den;
    let v = (a.num * factor) * b.den - (b.num * factor) * a.den;
    assert(v == u * factor && (b.num * factor) * a.den == (b.num * a.den) * factor)
        by (nonlinear_arith)
        requires
            u == a.num * b.den - b.num * a.den,
            v == (a.num * factor) * b.den - (b.num * factor) * a.den,
    ;
    let y = b.num * a.den;
    assert(BEYOND * v <= parts * (y * factor) && -(BEYOND * v) <= parts * (y * factor))
        by (nonlinear_arith)
        requires
            v == u * factor,
            BEYOND * u <= parts * y,
            -(BEYOND * u) <= parts * y,
            factor >= 0,
    ;
}

/// `p` is a power of two.
pub open spec fn is_power_of_two(p: nat) -> bool
    decreases p,
{
    p == 1 || (p > 1 && p % 2 == 0 && is_power_of_two(p / 2))
}

/// A double, as a fraction whose denominator is a power of two.
struct Double {
    num: u128,
    den: u128,
}

impl Double {
    spec fn wf(self) -> bool {
        is_power_of_two(self.den as nat)
    }

    spec fn value(self) -> Fraction {
        Fraction { num: self.num as nat, den: self.den as nat }
    }
}

fn rounded_up(num: u128, den: u128, twos: u128) -> (f: Double)
    requires
        0 < num <= 0x4000_0000_0000_0000_0000_0000_0000_0000,
        0 < den <= 0x400_0000_0000_0000_0000,
        is_power_of_two(twos as nat),
        den * twos <= 0x4000_0000_0000_0000_0000_0000_0000_0000,
        num < LEAST * (den * twos),
        BEYOND * (den * twos) <= num * 0x10_0000_0000_0000_0000_0000_0000,
    ensures
        f.wf(),
        f.value() == double(num as nat, (den * twos) as nat),
{
    let mut n: u128 = num;
    let mut p: u128 = twos;
    let mut grown: u128 = 1;
    let ghost whole = (den * twos) as nat;
    let ghost wanted = double(num as nat, whole);
    assert(num * grown * p == n * twos) by (nonlinear_arith)
        requires
            grown == 1,
            n == num,
            p == twos,
    ;
    proof {
        lemma_double_is_small(num as nat, whole);
    }
    assert(den * p > 0) by (nonlinear_arith)
        requires
            den > 0,
            p > 0,
    ;
    while n / (den * p) < LEAST
        invariant
            0 < num,
            0 < n <= 0x8000_0000_0000_0000_0000_0000_0000_0000,
            0 < den <= 0x400_0000_0000_0000_0000,
            0 < p <= twos,
            0 < den * p <= den * twos <= 0x4000_0000_0000_0000_0000_0000_0000_0000,
            whole == den * twos,
            BEYOND * whole <= num * 0x10_0000_0000_0000_0000_0000_0000,
            is_power_of_two(p as nat),
            is_power_of_two(grown as nat),
            num * grown * p == n * twos,
            n < BEYOND * (den * p),
            wanted.num == double(n as nat, (den * p) as nat).num,
            wanted.den == grown * double(n as nat, (den * p) as nat).den,
        decreases BEYOND * (den * p) - n,
    {
        let ghost d = den * p;
        let ghost f = double(n as nat, d as nat);
        assert(n < LEAST * d) by (nonlinear_arith)
            requires
                n as int / d < LEAST,
                d > 0,
                n >= 0,
        ;
        assert(grown < 0x8_0000_0000_0000_0000_0000_0000) by (nonlinear_arith)
            requires
                num * grown * p == n * twos,
                n < LEAST * (den * p),
                BEYOND * (den * twos) <= num * 0x10_0000_0000_0000_0000_0000_0000,
                BEYOND == 2 * LEAST,
                num > 0,
                p > 0,
                twos > 0,
                den > 0,
        ;
        let ghost g = double((2 * n) as nat, d as nat);
        assert(f.num == g.num && f.den == 2 * g.den);
        assert(grown * (2 * g.den) == (2 * grown) * g.den) by (nonlinear_arith);
        assert(num * (2 * grown) * p == 2 * (n * twos)) by (nonlinear_arith)
            requires
                num * grown * p == n * twos,
        ;
        if p > 1 {
            let half: u128 = p / 2;
            assert(p == 2 * half && is_power_of_two(half as nat));
            assert(den * p == 2 * (den * half)) by (nonlinear_arith)
                requires
                    p == 2 * half,
            ;
            assert(num * (2 * grown) * half == n * twos) by (nonlinear_arith)
                requires
                    num * grown * p == n * twos,
                    p == 2 * half,
            ;
            proof {
                lemma_double_scales(n as nat, (den * half) as nat);
            }
            p = half;
        } else {
            assert(den * p == den) by (nonlinear_arith)
                requires
                    p == 1,
            ;
            assert(num * (2 * grown) * p == (2 * n) * twos) by (nonlinear_arith)
                requires
                    num * grown * p == n * twos,
            ;
            n = 2 * n;
        }
        grown = 2 * grown;
    }
    let ghost d = (den * p) as nat;
    assert(LEAST * d <= n) by (nonlinear_arith)
        requires
            n as nat / d >= LEAST,
            d > 0,
    ;
    let m: u128 = round_nearest_even(n, den * p);
    assert(grown * 1 == grown);
    Double { num: m, den: grown }
}

fn rounded_down(num: u128, den: u128) -> (f: Double)
    requires
        0 < num <= 0x4000_0000_0000_0000_0000_0000_0000_0000,
        0 < den,
        num >= LEAST * den,
    ensures
        f.wf(),
        f.value() == double(num as nat, den as nat),
{
    let mut d: u128 = den;
    let mut shrunk: u128 = 1;
    let ghost wanted = double(num as nat, den as nat);
    assert(den * shrunk == d) by (nonlinear_arith)
        requires
            shrunk == 1,
            d == den,
    ;
    while num / d >= BEYOND
        invariant
            0 < num <= 0x4000_0000_0000_0000_0000_0000_0000_0000,
            0 < d,
            den > 0,
            shrunk > 0,
            num >= LEAST * d,
            d == den * shrunk,
            wanted.num == shrunk * double(num as nat, d as nat).num,
            wanted.den == double(num as nat, d as nat).den,
        decreases num - d,
    {
        assert(num >= BEYOND * d) by (nonlinear_arith)
            requires
                num / d >= BEYOND,
                d > 0,
        ;
        let ghost g = double(num as nat, 2 * d as nat);
        assert(shrunk * (2 * g.num) == (2 * shrunk) * g.num) by (nonlinear_arith);
        assert(shrunk <= d && 2 * d == den * (2 * shrunk)) by (nonlinear_arith)
            requires
                d == den * shrunk,
                den > 0,
                shrunk > 0,
        ;
        d = 2 * d;
        shrunk = 2 * shrunk;
    }
    assert(num < BEYOND * d) by (nonlinear_arith)
        requires
            num / d < BEYOND,
            d > 0,
    ;
    let m: u128 = round_nearest_even(num, d);
    proof {
        lemma_rounded_53(num as nat, d as nat);
        assert(m * shrunk <= 2 * num) by (nonlinear_arith)
            requires
                m * d <= 2 * num,
                d == den * shrunk,
                den > 0,
                m >= 0,
                shrunk > 0,
        ;
        assert(shrunk * m == m * shrunk) by (nonlinear_arith);
    }
    Double { num: m * shrunk, den: 1 }
}

/// The double nearest to `num / (den * twos)`.
fn rounded(num: u128, den: u128, twos: u128) -> (f: Double)
    requires
        num <= 0x4000_0000_0000_0000_0000_0000_0000_0000,
        0 < den <= 0x400_0000_0000_0000_0000,
        is_power_of_two(twos as nat),
        den * twos <= 0x4000_0000_0000_0000_0000_0000_0000_0000,
        num > 0 ==> BEYOND * (den * twos) <= num * 0x10_0000_0000_0000_0000_0000_0000,
    ensures
        f.wf(),
        f.value() == double(num as nat, (den * twos) as nat),
{
    if num == 0 {
        return Double { num: 0, den: 1 };
    }
    assert(den * twos > 0) by (nonlinear_arith)
        requires
            den > 0,
            twos > 0,
    ;
    let whole: u128 = den * twos;
    if num / whole < LEAST {
        assert(num < LEAST * whole) by (nonlinear_arith)
            requires
                num / whole < LEAST,
                whole > 0,
        ;
        rounded_up(num, den, twos)
    } else {
        assert(num >= LEAST * whole) by (nonlinear_arith)
            requires
                num / whole >= LEAST,
                whole > 0,
        ;
        rounded_down(num, whole)
    }
}

/// A time in seconds: the whole seconds and the rest, added. (Whole seconds of the clock are
/// doubles themselves.)
pub open spec fn seconds(nanos: nat) -> Fraction {
    let rest = double(nanos % NANOS_PER_SEC as nat, NANOS_PER_SEC as nat);
    double((nanos / NANOS_PER_SEC as nat) * rest.den + rest.num, rest.den)
}

/// How many of the units that `rate` of make up a second a time lasts: seconds times the rate.
pub open spec fn units(nanos: nat, rate: nat) -> Fraction {
    let s = seconds(nanos);
    double(s.num * rate, s.den)
}

/// How many of the units that `rate` of make up a second a time lasts, to the nearest whole one.
pub open spec fn whole_units(nanos: nat, rate: nat) -> nat {
    clock::nearest(units(nanos, rate).num, units(nanos, rate).den)
}

/// The seconds that `count` units last of which `rate` make up a second.
pub open spec fn seconds_of(count: nat, rate: nat) -> Fraction {
    let c = double(count, 1);
    double(c.num, rate * c.den)
}

/// The nanoseconds that `count` units last of which `rate` make up a second.
pub open spec fn nanos_of(count: nat, rate: nat) -> nat {
    let s = seconds_of(count, rate);
    clock::nearest_even(s.num * NANOS_PER_SEC as nat, s.den)
}

fn seconds_double(nanos: u64) -> (s: Double)
    ensures
        s.wf(),
        s.value() == seconds(nanos as nat),
        s.num <= BEYOND,
        s.den <= 0x10_0000_0000_0000_0000_0000,
        s.num == 0 || s.num >= LEAST,
{
    let rest: u128 = (nanos % NANOS_PER_SEC) as u128;
    let whole: u128 = (nanos / NANOS_PER_SEC) as u128;
    assert(NANOS_PER_SEC * 1 == NANOS_PER_SEC);
    let r: Double = rounded(rest, NANOS_PER_SEC as u128, 1);
    proof {
        lemma_double_is_small(rest as nat, NANOS_PER_SEC as nat);
        assert(r.den <= 0x8_0000_0000_0000_0000_0000) by (nonlinear_arith)
            requires
                r.den == 1 || r.den * rest < BEYOND * NANOS_PER_SEC || rest == 0,
                rest == 0 ==> r.den == 1,
                BEYOND == 0x20_0000_0000_0000,
                NANOS_PER_SEC == 1_000_000_000,
        ;
    }
    assert(whole * r.den <= 0x8_0000_0000 * 0x8_0000_0000_0000_0000_0000) by (nonlinear_arith)
        requires
            0 <= whole <= 0x8_0000_0000,
            0 <= r.den <= 0x8_0000_0000_0000_0000_0000,
    ;
    let num: u128 = whole * r.den + r.num;
    assert(1 * r.den == r.den);
    proof {
        assert(num > 0 ==> num >= LEAST || r.den == 1);
        lemma_double_is_near(rest as nat, NANOS_PER_SEC as nat);
        assert(r.num <= r.den * 2) by (nonlinear_arith)
            requires
                BEYOND * (r.num * NANOS_PER_SEC - rest * r.den) <= 1 * (rest * r.den),
                0 <= rest < NANOS_PER_SEC,
                BEYOND == 0x20_0000_0000_0000,
                NANOS_PER_SEC == 1_000_000_000,
                r.den >= 1,
        ;
        lemma_double_is_small(num as nat, r.den as nat);
        assert(num < LEAST * r.den) by (nonlinear_arith)
            requires
                num == whole * r.den + r.num,
                whole <= 0x8_0000_0000,
                r.num <= BEYOND,
                r.num <= r.den * 2,
                r.den >= 1,
                LEAST == 0x10_0000_0000_0000,
        ;
    }
    let s: Double = rounded(num, 1, r.den);
    proof {
        assert(s.den <= 0x10_0000_0000_0000_0000_0000) by (nonlinear_arith)
            requires
                s.den == 1 || s.den * num < BEYOND * r.den,
                num == 0 ==> s.den == 1,
                num > 0 ==> num >= LEAST || r.den == 1,
                r.den <= 0x8_0000_0000_0000_0000_0000,
                LEAST == 0x10_0000_0000_0000,
                BEYOND == 0x20_0000_0000_0000,
        ;
    }
    s
}

/// How many of the units that `rate` of make up a second a time lasts, to the nearest whole one.
pub fn count_units(nanos: u64, rate: u32) -> (count: u128)
    ensures
        count == whole_units(nanos as nat, rate as nat),
{
    let s: Double = seconds_double(nanos);
    assert(s.num * rate <= 0x20_0000_0000_0000 * 0xffff_ffff && (s.num * rate > 0 ==> s.num * rate
        >= s.num && s.num > 0)) by (nonlinear_arith)
        requires
            0 <= s.num <= 0x20_0000_0000_0000,
            0 <= rate <= 0xffff_ffff,
    ;
    let num: u128 = s.num * rate as u128;
    assert(1 * s.den == s.den);
    let u: Double = rounded(num, 1, s.den);
    proof {
        lemma_double_is_small(num as nat, s.den as nat);
        assert(u.den <= 0x1000_0000_0000_0000_0000_0000_0000_0000 && u.num
            <= 0x1000_0000_0000_0000_0000_0000_0000_0000) by (nonlinear_arith)
            requires
                u.den == 1 || u.den * num < BEYOND * s.den,
                num == 0 ==> u.den == 1 && u.num == 0,
                num > 0 ==> num >= LEAST,
                s.den <= 0x10_0000_0000_0000_0000_0000,
                s.den >= 1,
                num <= 0x20_0000_0000_0000 * 0xffff_ffff,
                u.num <= BEYOND || u.num * s.den <= 2 * num,
                LEAST == 0x10_0000_0000_0000,
                BEYOND == 0x20_0000_0000_0000,
        ;
    }
    round_nearest(u.num, u.den)
}

/// The nanoseconds that `count` units last of which `rate` make up a second.
pub fn count_nanos(count: u64, rate: u32) -> (nanos: u128)
    requires
        rate > 0,
    ensures
        nanos == nanos_of(count as nat, rate as nat),
{
    assert(1 * 1 == 1);
    let c: Double = rounded(count as u128, 1, 1);
    proof {
        lemma_double_is_small(count as nat, 1);
        assert(c.den <= BEYOND) by (nonlinear_arith)
            requires
                c.den == 1 || c.den * count < BEYOND * 1,
                count == 0 ==> c.den == 1,
                BEYOND == 0x20_0000_0000_0000,
        ;
    }
    assert(rate * c.den <= 0xffff_ffff * 0x20_0000_0000_0000 && rate * c.den > 0)
        by (nonlinear_arith)
        requires
            0 < rate <= 0xffff_ffff,
            0 < c.den <= 0x20_0000_0000_0000,
    ;
    let s: Double = rounded(c.num, rate as u128, c.den);
    proof {
        let den = (rate * c.den) as nat;
        lemma_double_is_small(c.num as nat, den);
        assert(s.den <= 0x1000_0000_0000_0000_0000_0000_0000_0000 && s.num
            <= 0x4_0000_0000_0000_0000) by (nonlinear_arith)
            requires
                s.den == 1 || s.den * c.num < BEYOND * den,
                c.num == 0 ==> s.den == 1 && s.num == 0,
                c.num > 0 ==> c.num >= LEAST,
                1 <= den <= 0xffff_ffff * 0x20_0000_0000_0000,
                c.num <= 0x2_0000_0000_0000_0000,
                s.num <= BEYOND || s.num * den <= 2 * c.num,
                LEAST == 0x10_0000_0000_0000,
                BEYOND == 0x20_0000_0000_0000,
        ;
    }
    round_nearest_even(s.num * NANOS_PER_SEC as u128, s.den)
}

/// A time in units is off by at most five parts in 2 to the 53rd.
pub proof fn lemma_units_are_near(nanos: nat, rate: nat)
    ensures
        near(units(nanos, rate), Fraction { num: nanos * rate, den: NANOS_PER_SEC as nat }, 5),
{
    let second = NANOS_PER_SEC as nat;
    let whole = nanos / second;
    let exact_rest = Fraction { num: nanos % second, den: second };
    let rest = double(exact_rest.num, second);
    lemma_double_is_near(exact_rest.num, second);
    lemma_near_sum(rest, exact_rest, whole, 1);
    let exact = Fraction { num: nanos, den: second };
    assert(whole * second + exact_rest.num == nanos);
    let sum = Fraction { num: whole * rest.den + rest.num, den: rest.den };
    lemma_double_is_near(sum.num, sum.den);
    let s = seconds(nanos);
    assert(1nat * 1nat <= BEYOND);
    lemma_near_chains(s, sum, exact, 1, 1);
    lemma_near_product(s, exact, rate, 3);
    let product = Fraction { num: s.num * rate, den: s.den };
    lemma_double_is_near(product.num, product.den);
    assert(1nat * 3nat <= BEYOND);
    lemma_near_chains(
        units(nanos, rate),
        product,
        Fraction { num: nanos * rate, den: second },
        1,
        3,
    );
}

/// A time in whole units is off by at most half a unit and five parts in 2 to the 53rd.
pub proof fn lemma_whole_units_are_near(nanos: nat, rate: nat)
    ensures
        ({
            let exact = nanos * rate;
            let found = whole_units(nanos, rate) * NANOS_PER_SEC;
            let slack = BEYOND * NANOS_PER_SEC + 10 * exact;
            -slack <= BEYOND * (2 * found - 2 * exact) <= slack
        }),
{
    lemma_units_are_near(nanos, rate);
    let u = units(nanos, rate);
    let t = whole_units(nanos, rate) as int;
    clock::lemma_nearest_is_near(u.num, u.den);
    let n = (nanos * rate) as int;
    let h = BEYOND as int;
    let second = NANOS_PER_SEC as int;
    let a = u.num as int;
    let b = u.den as int;
    let x = a * second - n * b;
    let y = 2 * b * t - 2 * a;
    assert(h * x <= 5 * (n * b) && -(h * x) <= 5 * (n * b));
    assert(-b <= y <= b);
    assert(b * (h * (2 * (t * second) - 2 * n)) == h * (y * second) + 2 * (h * x))
        by (nonlinear_arith)
        requires
            x == a * second - n * b,
            y == 2 * b * t - 2 * a,
    ;
    assert(h * (y * second) <= h * (b * second) && -(h * (y * second)) <= h * (b * second))
        by (nonlinear_arith)
        requires
            -b <= y <= b,
            h > 0,
            second > 0,
    ;
    let slack = h * second + 10 * n;
    let off = h * (2 * (t * second) - 2 * n);
    assert(b * slack == h * (b * second) + 10 * (n * b)) by (nonlinear_arith)
        requires
            slack == h * second + 10 * n,
    ;
    assert(-slack <= off <= slack) by (nonlinear_arith)
        requires
            b * off <= b * slack,
            -(b * off) <= b * slack,
            b > 0,
    ;
}

/// Whole seconds are counted exactly, as long as the count has at most 53 bits.
pub proof fn lemma_whole_seconds_are_exact(secs: nat, rate: nat)
    requires
        secs * rate < BEYOND,
        secs < BEYOND,
    ensures
        whole_units(secs * NANOS_PER_SEC as nat, rate) == secs * rate,
{
    let second = NANOS_PER_SEC as nat;
    let nanos = secs * second;
    assert(nanos / second == secs && nanos % second == 0) by (nonlinear_arith)
        requires
            nanos == secs * second,
            second > 0,
    ;
    assert(secs * 1 + 0 == secs);
    lemma_whole_is_double(secs, 1);
    let s = seconds(nanos);
    let count = secs * rate;
    assert(s.num * rate == count * s.den) by (nonlinear_arith)
        requires
            s.num == secs * s.den,
            count == secs * rate,
    ;
    lemma_whole_is_double(count, s.den);
    let u = units(nanos, rate);
    assert((2 * u.num + u.den) / (2 * u.den) == count) by (nonlinear_arith)
        requires
            u.num == count * u.den,
            u.den > 0,
    ;
}

proof fn lemma_near_quotient(a: Fraction, b: Fraction, divisor: nat, parts: nat)
    requires
        near(a, b, parts),
        divisor > 0,
    ensures
        near(
            Fraction { num: a.num, den: divisor * a.den },
            Fraction { num: b.num, den: divisor * b.den },
            parts,
        ),
{
    let u = a.num * b.den - b.num * a.den;
    let v = a.num * (divisor * b.den) - b.num * (divisor * a.den);
    let y = b.num * a.den;
    assert(v == divisor * u && b.num * (divisor * a.den) == divisor * y && divisor * a.den > 0
        && divisor * b.den > 0) by (nonlinear_arith)
        requires
            u == a.num * b.den - b.num * a.den,
            v == a.num * (divisor * b.den) - b.num * (divisor * a.den),
            y == b.num * a.den,
            divisor > 0,
            a.den > 0,
            b.den > 0,
    ;
    assert(BEYOND * v <= parts * (divisor * y) && -(BEYOND * v) <= parts * (divisor * y))
        by (nonlinear_arith)
        requires
            v == divisor * u,
            BEYOND * u <= parts * y,
            -(BEYOND * u) <= parts * y,
            divisor > 0,
    ;
}

/// A count of units turned into nanoseconds is off by at most half a nanosecond and three parts
/// in 2 to the 53rd.
pub proof fn lemma_nanos_are_near(count: nat, rate: nat)
    requires
        rate > 0,
    ensures
        ({
            let exact = count * 1_000_000_000;
            let off = 2 * (nanos_of(count, rate) * rate) - 2 * exact;
            let slack = 0x20_0000_0000_0000 * rate + 6 * exact;
            -slack <= 0x20_0000_0000_0000 * off <= slack
        }),
{
    let whole = Fraction { num: count, den: 1 };
    let c = double(count, 1);
    lemma_double_is_near(count, 1);
    lemma_near_quotient(c, whole, rate, 1);
    let quotient = Fraction { num: c.num, den: rate * c.den };
    let s = seconds_of(count, rate);
    lemma_double_is_near(quotient.num, quotient.den);
    assert(1nat * 1nat <= BEYOND);
    lemma_near_chains(s, quotient, Fraction { num: count, den: rate * 1 }, 1, 1);
    let second = NANOS_PER_SEC as int;
    let a = s.num as int;
    let b = s.den as int;
    let n = count as int;
    let r = rate as int;
    let t = nanos_of(count, rate) as int;
    clock::lemma_nearest_even_rounds_halves_to_even(s.num * NANOS_PER_SEC as nat, s.den);
    let h = BEYOND as int;
    let x = a * r - n * b;
    let y = 2 * (b * t) - 2 * (a * second);
    assert(h * x <= 3 * (n * b) && -(h * x) <= 3 * (n * b));
    assert(-b <= y <= b);
    let off = 2 * (t * r) - 2 * (n * second);
    assert(y * r == 2 * (b * (t * r)) - 2 * (a * second * r)) by (nonlinear_arith)
        requires
            y == 2 * (b * t) - 2 * (a * second),
    ;
    assert(x * second == a * second * r - n * b * second) by (nonlinear_arith)
        requires
            x == a * r - n * b,
    ;
    assert(b * off == 2 * (b * (t * r)) - 2 * (n * b * second)) by (nonlinear_arith)
        requires
            off == 2 * (t * r) - 2 * (n * second),
    ;
    assert(b * (h * off) == h * (b * off) && (h * x) * second == h * (x * second)) by (
    nonlinear_arith);
    let step = y * r;
    let rest = x * second;
    assert(h * (step + 2 * rest) == h * step + 2 * (h * rest)) by (nonlinear_arith);
    assert(h * (y * r) <= h * (b * r) && -(h * (y * r)) <= h * (b * r)) by (nonlinear_arith)
        requires
            -b <= y <= b,
            h > 0,
            r > 0,
    ;
    let slack = h * r + 6 * (n * second);
    assert(b * slack == h * (b * r) + 2 * ((3 * (n * b)) * second)) by (nonlinear_arith)
        requires
            slack == h * r + 6 * (n * second),
    ;
    assert(-slack <= h * off <= slack) by (nonlinear_arith)
        requires
            b * (h * off) <= b * slack,
            -(b * (h * off)) <= b * slack,
            b > 0,
    ;
}

} // verus!
