//! Exact integer arithmetic that rounds as IEEE 754 binary64 arithmetic does.
//!
//! Lengths of audio are quotients of counts, and they are measured and shown
//! with the precision of a binary64 number: every quotient, product or sum is
//! the exact result rounded to 53 significant bits, half to even. The numbers
//! here are never negative and lie far inside the range of binary64, so there
//! is no overflow, no subnormal number and no infinity to think of.

use vstd::arithmetic::div_mod::{lemma_fundamental_div_mod, lemma_fundamental_div_mod_converse};
use vstd::arithmetic::power2::{
    lemma2_to64, lemma2_to64_rest, lemma_pow2_adds, lemma_pow2_pos,
    lemma_pow2_strictly_increases, lemma_pow2_unfold, pow2,
};
use vstd::prelude::*;

verus! {

/// Two to the power of 52: the least significand of a normal number.
pub const TWO_52: u128 = 0x10_0000_0000_0000;

/// Two to the power of 53: the count of whole numbers that need no rounding.
pub const TWO_53: u128 = 0x20_0000_0000_0000;

/// Two to the power of 75: the largest divisor of [`nearest`].
pub const TWO_75: u128 = 0x800_0000_0000_0000_0000;

/// The number `significand / 2^shift`.
pub struct Dyadic {
    pub significand: nat,
    pub shift: int,
}

impl Dyadic {
    /// The numerator of the number as a fraction.
    pub open spec fn numerator(self) -> nat {
        if self.shift >= 0 {
            self.significand
        } else {
            self.significand * pow2((-self.shift) as nat)
        }
    }

    /// The denominator of the number as a fraction.
    pub open spec fn denominator(self) -> nat {
        if self.shift >= 0 {
            pow2(self.shift as nat)
        } else {
            1
        }
    }
}

/// The whole number nearest to `n / d`; of two that are equally near, the even
/// one.
pub open spec fn half_even(n: nat, d: nat) -> nat {
    let quotient = n / d;
    let rest = n % d;
    if 2 * rest < d || (2 * rest == d && quotient % 2 == 0) {
        quotient
    } else {
        quotient + 1
    }
}

/// The rounding of `n / d` where the quotient is below `2^53`: it is doubled
/// until its whole part has 53 bits, and then rounded.
pub open spec fn nearest_small(n: nat, d: nat) -> Dyadic
    decreases
            (if n < TWO_52 * d {
                TWO_52 * d - n
            } else {
                0
            }),
{
    if 0 < n < TWO_52 * d {
        let doubled = nearest_small(2 * n, d);
        Dyadic { significand: doubled.significand, shift: doubled.shift + 1 }
    } else {
        Dyadic { significand: half_even(n, d), shift: 0 }
    }
}

/// The rounding of `n / d` where the quotient is at least `2^53`: it is halved
/// until its whole part has 53 bits, and then rounded.
pub open spec fn nearest_large(n: nat, d: nat) -> Dyadic
    decreases n - d,
{
    if 0 < d && TWO_53 * d <= n {
        let halved = nearest_large(n, 2 * d);
        Dyadic { significand: halved.significand, shift: halved.shift - 1 }
    } else {
        Dyadic { significand: half_even(n, d), shift: 0 }
    }
}

/// The quotient `n / d`, rounded to 53 significant bits.
pub open spec fn nearest(n: nat, d: nat) -> Dyadic {
    if n < TWO_53 * d {
        nearest_small(n, d)
    } else {
        nearest_large(n, d)
    }
}

/// The whole number `n`, rounded to 53 significant bits.
pub open spec fn nearest_whole(n: nat) -> nat {
    if n < TWO_53 {
        n
    } else {
        nearest_large(n, 1).numerator()
    }
}

/// `x` times `scale`, rounded to a whole number.
pub open spec fn round_scaled(x: Dyadic, scale: nat) -> nat {
    half_even(x.numerator() * scale, x.denominator())
}

/// The quotient of two counts, each of which is rounded first.
pub open spec fn quotient(n: nat, d: nat) -> Dyadic {
    nearest(nearest_whole(n), nearest_whole(d))
}

/// A number that [`nearest`] gave: `significand / 2^shift`.
#[derive(Clone, Copy, Debug)]
pub struct Binary64 {
    pub significand: u128,
    pub shift: i32,
}

impl View for Binary64 {
    type V = Dyadic;

    open spec fn view(&self) -> Dyadic {
        Dyadic { significand: self.significand as nat, shift: self.shift as int }
    }
}

/// The values of the powers of two that bound the arithmetic.
proof fn lemma_powers()
    ensures
        pow2(52) == TWO_52,
        pow2(53) == TWO_53,
        pow2(75) == TWO_75,
        pow2(127) == 0x8000_0000_0000_0000_0000_0000_0000_0000,
        pow2(128) == 0x1_0000_0000_0000_0000_0000_0000_0000_0000,
{
    lemma2_to64();
    lemma2_to64_rest();
    lemma_pow2_adds(22, 53);
    lemma_pow2_adds(63, 64);
    lemma_pow2_adds(64, 64);
    assert(pow2(22) * pow2(53) == 0x40_0000 * 0x20_0000_0000_0000);
    assert(pow2(63) * pow2(64) == 0x8000_0000_0000_0000 * 0x1_0000_0000_0000_0000);
    assert(pow2(64) * pow2(64) == 0x1_0000_0000_0000_0000 * 0x1_0000_0000_0000_0000);
}

/// What [`half_even`] gives is at most half a unit away from the quotient.
pub proof fn lemma_half_even(n: nat, d: nat)
    requires
        d > 0,
    ensures
        2 * half_even(n, d) * d <= 2 * n + d,
        2 * n <= 2 * half_even(n, d) * d + d,
        half_even(n, d) <= n,
{
    let quotient = n / d;
    let rest = n % d;
    lemma_fundamental_div_mod(n as int, d as int);
    assert(n == d * quotient + rest);
    assert(quotient * d == d * quotient) by (nonlinear_arith);
    assert((quotient + 1) * d == d * quotient + d) by (nonlinear_arith);
    if half_even(n, d) == quotient {
        assert(2 * half_even(n, d) * d == 2 * (quotient * d)) by (nonlinear_arith)
            requires
                half_even(n, d) == quotient,
        ;
        assert(quotient <= n) by (nonlinear_arith)
            requires
                n == d * quotient + rest,
                d > 0,
                rest >= 0,
        ;
    } else {
        assert(2 * half_even(n, d) * d == 2 * ((quotient + 1) * d)) by (nonlinear_arith)
            requires
                half_even(n, d) == quotient + 1,
        ;
        assert(quotient + 1 <= n) by (nonlinear_arith)
            requires
                n == d * quotient + rest,
                d > 0,
                rest > 0,
        ;
    }
}

/// `n / d`, rounded half to even.
pub fn div_half_even(n: u128, d: u128) -> (rounded: u128)
    requires
        d > 0,
    ensures
        rounded == half_even(n as nat, d as nat),
{
    let quotient: u128 = n / d;
    let rest: u128 = n % d;
    if rest < d - rest || (rest == d - rest && quotient % 2 == 0) {
        quotient
    } else {
        proof {
            lemma_half_even(n as nat, d as nat);
        }
        quotient + 1
    }
}

/// Two to the power of `exponent`.
fn power_of_two(exponent: u32) -> (power: u128)
    requires
        exponent < 128,
    ensures
        power == pow2(exponent as nat),
{
    let mut power: u128 = 1;
    let mut done: u32 = 0;
    proof {
        lemma2_to64();
    }
    while done < exponent
        invariant
            done <= exponent < 128,
            power == pow2(done as nat),
        decreases exponent - done,
    {
        proof {
            lemma_powers();
            lemma_pow2_unfold((done + 1) as nat);
            if done + 1 < 127 {
                lemma_pow2_strictly_increases((done + 1) as nat, 127);
            }
        }
        power = power * 2;
        done = done + 1;
    }
    power
}

/// A quotient below `2^53` is rounded in the binade where its whole part has 53
/// bits, and that binade is found by doubling.
pub proof fn law_nearest_small(n: nat, d: nat)
    requires
        0 < n < TWO_53 * d,
    ensures
        nearest(n, d).shift >= 0,
        TWO_52 * d <= n * pow2(nearest(n, d).shift as nat) < TWO_53 * d,
        nearest(n, d).significand == half_even(n * pow2(nearest(n, d).shift as nat), d),
    decreases TWO_53 * d - n,
{
    lemma2_to64();
    if n < TWO_52 * d {
        law_nearest_small(2 * n, d);
        let shift = nearest(2 * n, d).shift as nat;
        lemma_pow2_unfold(shift + 1);
        assert(n * pow2(shift + 1) == (2 * n) * pow2(shift)) by (nonlinear_arith)
            requires
                pow2(shift + 1) == 2 * pow2(shift),
        ;
    } else {
        assert(n * pow2(0) == n) by (nonlinear_arith)
            requires
                pow2(0) == 1,
        ;
    }
}

/// A quotient of `2^53` or more is rounded in the binade where its whole part
/// has 53 bits, and that binade is found by halving.
pub proof fn law_nearest_large(n: nat, d: nat)
    requires
        0 < d,
        TWO_53 * d <= n,
    ensures
        nearest(n, d).shift < 0,
        TWO_52 * (d * pow2((-nearest(n, d).shift) as nat)) <= n,
        n < TWO_53 * (d * pow2((-nearest(n, d).shift) as nat)),
        nearest(n, d).significand == half_even(n, d * pow2((-nearest(n, d).shift) as nat)),
    decreases n - d,
{
    lemma2_to64();
    lemma_pow2_unfold(1);
    if TWO_53 * (2 * d) <= n {
        law_nearest_large(n, 2 * d);
        let halvings = (-nearest(n, 2 * d).shift) as nat;
        lemma_pow2_unfold(halvings + 1);
        assert(d * pow2(halvings + 1) == (2 * d) * pow2(halvings)) by (nonlinear_arith)
            requires
                pow2(halvings + 1) == 2 * pow2(halvings),
        ;
    } else {
        assert(nearest_large(n, 2 * d).shift == 0);
        assert(d * pow2(1) == 2 * d) by (nonlinear_arith)
            requires
                pow2(1) == 2,
        ;
    }
}

/// Where `n / d` is a whole number below `2^53`, rounding leaves it as it is.
pub proof fn law_nearest_exact(k: nat, d: nat)
    requires
        0 < d,
        k < TWO_53,
    ensures
        nearest(k * d, d).numerator() == k * nearest(k * d, d).denominator(),
        nearest(k * d, d).denominator() > 0,
{
    let n = k * d;
    assert(n < TWO_53 * d) by (nonlinear_arith)
        requires
            n == k * d,
            k < TWO_53,
            0 < d,
    ;
    lemma2_to64();
    if k == 0 {
        assert(n == 0) by (nonlinear_arith)
            requires
                n == k * d,
                k == 0,
        ;
        assert(half_even(0, d) == 0);
    } else {
        assert(n > 0) by (nonlinear_arith)
            requires
                n == k * d,
                k > 0,
                d > 0,
        ;
        law_nearest_small(n, d);
        let power = pow2(nearest(n, d).shift as nat);
        lemma_pow2_pos(nearest(n, d).shift as nat);
        assert(n * power == (k * power) * d) by (nonlinear_arith)
            requires
                n == k * d,
        ;
        lemma_half_even_multiple(k * power, d);
    }
}

/// A multiple of the divisor is divided without rounding.
pub proof fn lemma_half_even_multiple(k: nat, d: nat)
    requires
        d > 0,
    ensures
        half_even(k * d, d) == k,
{
    lemma_fundamental_div_mod_converse((k * d) as int, d as int, k as int, 0);
}

/// The quotient rounds to at most `c` where it is less than `c` and a half.
proof fn lemma_half_even_upper(n: nat, d: nat, c: nat)
    requires
        d > 0,
        2 * n < (2 * c + 1) * d,
    ensures
        half_even(n, d) <= c,
{
    lemma_half_even(n, d);
    let r = half_even(n, d);
    if r > c {
        lemma_fundamental_div_mod(n as int, d as int);
        let quotient = n / d;
        assert(n == d * quotient + n % d);
        assert(quotient <= c) by (nonlinear_arith)
            requires
                n >= d * quotient,
                2 * n < (2 * c + 1) * d,
                d > 0,
        ;
        assert(quotient == c);
        assert(2 * (n % d) < d) by (nonlinear_arith)
            requires
                n == d * quotient + n % d,
                2 * n < (2 * c + 1) * d,
                quotient == c,
        ;
    }
}

/// `n / d`, rounded to 53 significant bits.
pub fn div_nearest(n: u128, d: u128) -> (x: Binary64)
    requires
        0 < d <= TWO_75,
    ensures
        x@ == nearest(n as nat, d as nat),
        x.significand <= TWO_53,
        -76 <= x.shift <= 127,
        x@.numerator() <= 2 * n + TWO_53,
{
    let ghost n0 = n as nat;
    let ghost d0 = d as nat;
    let mut n: u128 = n;
    let mut d: u128 = d;
    let mut shift: i32 = 0;
    proof {
        lemma2_to64();
    }
    if n / TWO_53 < d {
        while 0 < n && n < TWO_52 * d
            invariant
                0 < d <= TWO_75,
                d == d0,
                n < TWO_53 * d,
                0 <= shift <= 127,
                n > 0 ==> n >= pow2(shift as nat),
                n == 0 ==> shift == 0,
                nearest_small(n0, d0).significand == nearest_small(n as nat, d0).significand,
                nearest_small(n0, d0).shift == nearest_small(n as nat, d0).shift + shift,
            decreases TWO_53 * d - n,
        {
            proof {
                lemma_powers();
                lemma_pow2_unfold((shift + 1) as nat);
                if shift >= 127 {
                    assert(false);
                }
            }
            n = n * 2;
            shift = shift + 1;
        }
    } else {
        while d <= n / TWO_53
            invariant
                0 < d <= 2 * TWO_75,
                TWO_52 * d <= n,
                -76 <= shift <= 0,
                d >= pow2((-shift) as nat),
                n == n0,
                nearest_large(n0, d0).significand == nearest_large(n0, d as nat).significand,
                nearest_large(n0, d0).shift == nearest_large(n0, d as nat).shift + shift,
            decreases n - d,
        {
            proof {
                lemma_powers();
                lemma_pow2_unfold((1 - shift) as nat);
                assert(n / TWO_53 < TWO_75);
                if shift <= -75 {
                    if shift == -76 {
                        lemma_pow2_strictly_increases(75, 76);
                    }
                    assert(false);
                }
            }
            d = d * 2;
            shift = shift - 1;
        }
    }
    proof {
        lemma_half_even(n as nat, d as nat);
        assert(half_even(n as nat, d as nat) <= TWO_53) by {
            let r = half_even(n as nat, d as nat);
            assert(r <= TWO_53) by (nonlinear_arith)
                requires
                    2 * r * d <= 2 * n + d,
                    n < TWO_53 * d,
                    d > 0,
            ;
        }
    }
    proof {
        if TWO_53 * d0 <= n0 {
            lemma_large_doubles(n0, d0);
        } else if n0 > 0 {
            law_nearest_small(n0, d0);
        }
    }
    Binary64 { significand: div_half_even(n, d), shift }
}

/// Where a quotient of at least `2^53` is at most `c * 2^k` for the `k` by which
/// its rounding shifts it, so is what it is rounded to.
proof fn lemma_large_upper(n: nat, d: nat, bound: nat, halvings: nat, c: nat)
    requires
        0 < d,
        TWO_53 * d <= n,
        halvings == -nearest(n, d).shift,
        bound == c * pow2(halvings),
        2 * n < 2 * (bound * d) + d * pow2(halvings),
    ensures
        nearest(n, d).numerator() <= bound,
{
    law_nearest_large(n, d);
    let power = pow2(halvings);
    lemma_pow2_pos(halvings);
    assert(d * power > 0) by (nonlinear_arith)
        requires
            d > 0,
            power > 0,
    ;
    assert(2 * n < (2 * c + 1) * (d * power)) by (nonlinear_arith)
        requires
            2 * n < 2 * (bound * d) + d * power,
            bound == c * power,
    ;
    lemma_half_even_upper(n, d * power, c);
    let significand = nearest(n, d).significand;
    assert(significand * power <= c * power) by (nonlinear_arith)
        requires
            significand <= c,
    ;
}

/// Rounding at most doubles a quotient of at least `2^53`.
proof fn lemma_large_doubles(n: nat, d: nat)
    requires
        0 < d,
        TWO_53 * d <= n,
    ensures
        nearest(n, d).numerator() <= 2 * n,
        nearest(n, d).numerator() * d <= 2 * n,
{
    law_nearest_large(n, d);
    let power = pow2((-nearest(n, d).shift) as nat);
    lemma_pow2_pos((-nearest(n, d).shift) as nat);
    let significand = nearest(n, d).significand;
    assert(d * power > 0) by (nonlinear_arith)
        requires
            d > 0,
            power > 0,
    ;
    lemma_half_even(n, d * power);
    assert(2 * significand * (d * power) == 2 * ((significand * power) * d)) by (nonlinear_arith);
    assert(significand * power <= (significand * power) * d) by (nonlinear_arith)
        requires
            d >= 1,
            significand * power >= 0,
    ;
}

/// A count, rounded to 53 significant bits.
pub fn round_whole(n: u128) -> (rounded: u128)
    requires
        n < 0x8000_0000_0000_0000_0000_0000_0000_0000,
    ensures
        rounded == nearest_whole(n as nat),
        rounded <= 2 * n,
        n > 0 ==> rounded > 0,
{
    if n < TWO_53 {
        return n;
    }
    let x = div_nearest(n, 1);
    proof {
        law_nearest_large(n as nat, 1);
        lemma_large_doubles(n as nat, 1);
        let power = pow2((-x.shift) as nat);
        lemma_pow2_pos((-x.shift) as nat);
        lemma_half_even(n as nat, 1 * power);
        assert(x.significand >= 1) by (nonlinear_arith)
            requires
                2 * n <= 2 * x.significand * (1 * power) + 1 * power,
                TWO_52 * (1 * power) <= n,
                power > 0,
        ;
        assert(x.significand * power > 0) by (nonlinear_arith)
            requires
                x.significand >= 1,
                power > 0,
        ;
    }
    let power: u128 = power_of_two((-x.shift) as u32);
    x.significand * power
}

/// A rounded quotient times `scale`, rounded to a whole number.
pub fn scale_rounded(x: Binary64, scale: u128) -> (rounded: u128)
    requires
        -128 < x.shift < 128,
        x@.numerator() <= u128::MAX,
        x@.numerator() * scale <= u128::MAX,
    ensures
        rounded == round_scaled(x@, scale as nat),
{
    if x.shift >= 0 {
        let denominator: u128 = power_of_two(x.shift as u32);
        proof {
            lemma_pow2_pos(x.shift as nat);
        }
        div_half_even(x.significand * scale, denominator)
    } else {
        let power: u128 = power_of_two((-x.shift) as u32);
        let numerator: u128 = x.significand * power;
        div_half_even(numerator * scale, 1)
    }
}

/// The quotient of two counts.
pub fn div_counts(n: u128, d: u128) -> (x: Binary64)
    requires
        0 < d <= 0x1_0000_0000_0000_0000,
        n < 0x1_0000_0000_0000_0000_0000,
    ensures
        x@ == quotient(n as nat, d as nat),
        -128 < x.shift < 128,
        x@.numerator() <= 4 * n + TWO_53,
{
    let rounded_n: u128 = round_whole(n);
    let rounded_d: u128 = round_whole(d);
    let x = div_nearest(rounded_n, rounded_d);
    proof {
        if rounded_n >= TWO_53 * rounded_d {
            lemma_large_doubles(rounded_n as nat, rounded_d as nat);
        } else {
            if rounded_n > 0 {
                law_nearest_small(rounded_n as nat, rounded_d as nat);
            }
            assert(x.significand <= TWO_53);
        }
    }
    x
}

/// The quotient of two counts of 64 bits lies below `2^64`, unless it is a
/// count so large that it is itself rounded up to `2^64`.
pub proof fn lemma_quotient_upper(n: nat, d: nat)
    requires
        d > 0,
        n < 0xFFFF_FFFF_FFFF_FC00 || (n <= u64::MAX && 1 < d <= u64::MAX),
    ensures
        quotient(n, d).numerator() <= 0xFFFF_FFFF_FFFF_F800,
{
    lemma_powers();
    lemma2_to64();
    lemma2_to64_rest();
    let rn = nearest_whole(n);
    let rd = nearest_whole(d);
    if d == 1 {
        lemma_whole_upper(n, 0xFFFF_FFFF_FFFF_F800);
        assert(rd == 1);
        if rn < TWO_53 {
            lemma_small_upper(rn, 1);
        } else {
            lemma_quotient_bound(rn, 1, 0xFFFF_FFFF_FFFF_F800);
        }
    } else {
        lemma_whole_upper(n, 0x1_0000_0000_0000_0000);
        lemma_whole_lower(d);
        if rn < TWO_53 * rd {
            lemma_small_upper(rn, rd);
        } else {
            assert(rn <= 0x8000_0000_0000_0000 * rd) by (nonlinear_arith)
                requires
                    rn <= 0x1_0000_0000_0000_0000,
                    rd >= 2,
            ;
            lemma_quotient_bound(rn, rd, 0x8000_0000_0000_0000);
        }
    }
}

/// A quotient below `2^53` has a significand of at most `2^53`.
proof fn lemma_small_upper(n: nat, d: nat)
    requires
        0 < d,
        n < TWO_53 * d,
    ensures
        nearest(n, d).numerator() <= TWO_53,
{
    if n == 0 {
        assert(half_even(0, d) == 0);
    } else {
        law_nearest_small(n, d);
        let scaled = n * pow2(nearest(n, d).shift as nat);
        let c = TWO_53 as nat;
        assert(2 * scaled < (2 * c + 1) * d) by (nonlinear_arith)
            requires
                scaled < c * d,
                d > 0,
        ;
        lemma_half_even_upper(scaled, d, c);
    }
}

/// Rounding a count does not make it vanish.
pub proof fn law_nearest_whole_positive(n: nat)
    requires
        n > 0,
    ensures
        nearest_whole(n) > 0,
{
    if n >= 2 {
        lemma_whole_lower(n);
    }
}

/// At least two counts as at least two once it is rounded.
proof fn lemma_whole_lower(n: nat)
    requires
        n >= 2,
    ensures
        nearest_whole(n) >= 2,
{
    if n >= TWO_53 {
        law_nearest_large(n, 1);
        let power = pow2((-nearest(n, 1).shift) as nat);
        lemma_pow2_pos((-nearest(n, 1).shift) as nat);
        lemma_half_even(n, 1 * power);
        let significand = nearest(n, 1).significand;
        assert(significand >= 2) by (nonlinear_arith)
            requires
                2 * n <= 2 * significand * (1 * power) + 1 * power,
                TWO_52 * (1 * power) <= n,
                power > 0,
        ;
        assert(significand * power >= 2) by (nonlinear_arith)
            requires
                significand >= 2,
                power > 0,
        ;
    }
}

/// The binade in which a quotient below `2^64` is rounded leaves out at most
/// eleven bits.
proof fn lemma_few_halvings(n: nat, d: nat) -> (halvings: nat)
    requires
        0 < d,
        TWO_53 * d <= n,
        n <= 0xFFFF_FFFF_FFFF_FFFF * d,
    ensures
        halvings == -nearest(n, d).shift,
        0 < halvings <= 11,
{
    lemma_powers();
    lemma2_to64();
    law_nearest_large(n, d);
    let halvings = (-nearest(n, d).shift) as nat;
    if halvings > 11 {
        if halvings > 12 {
            lemma_pow2_strictly_increases(12, halvings);
        }
        let power = pow2(halvings);
        assert(TWO_52 * (d * power) > n) by (nonlinear_arith)
            requires
                power >= 0x1000,
                n <= 0xFFFF_FFFF_FFFF_FFFF * d,
                d > 0,
        ;
    }
    halvings
}

/// A multiple of `2^11` is a multiple of every smaller power of two.
proof fn lemma_split_bound(bound: nat, halvings: nat) -> (c: nat)
    requires
        bound % 0x800 == 0,
        halvings <= 11,
    ensures
        bound == c * pow2(halvings),
{
    lemma2_to64();
    let rest = (11 - halvings) as nat;
    lemma_pow2_adds(rest, halvings);
    let power = pow2(halvings);
    let c = (bound / 0x800) * pow2(rest);
    let units = bound / 0x800;
    assert(rest + halvings == 11);
    assert(c * power == units * 0x800) by (nonlinear_arith)
        requires
            c == units * pow2(rest),
            pow2(rest) * power == 0x800,
    ;
    c
}

/// A bound that is itself a number of 53 significant bits holds of the quotient
/// after rounding too.
proof fn lemma_quotient_bound(n: nat, d: nat, bound: nat)
    requires
        0 < d,
        TWO_53 * d <= n <= bound * d,
        bound == 0xFFFF_FFFF_FFFF_F800 || bound == 0x8000_0000_0000_0000,
    ensures
        nearest(n, d).numerator() <= bound,
{
    lemma2_to64();
    assert(n <= 0xFFFF_FFFF_FFFF_FFFF * d) by (nonlinear_arith)
        requires
            n <= bound * d,
            bound <= 0xFFFF_FFFF_FFFF_FFFF,
    ;
    let halvings = lemma_few_halvings(n, d);
    let power = pow2(halvings);
    lemma_pow2_pos(halvings);
    let c = lemma_split_bound(bound, halvings);
    assert(d * power > 0) by (nonlinear_arith)
        requires
            d > 0,
            power > 0,
    ;
    lemma_large_upper(n, d, bound, halvings, c);
}

/// A count of 64 bits is rounded to at most `2^64`, and to less than that where
/// it is not in the topmost half step.
proof fn lemma_whole_upper(n: nat, bound: nat)
    requires
        (n < 0xFFFF_FFFF_FFFF_FC00 && bound == 0xFFFF_FFFF_FFFF_F800) || (n <= u64::MAX && bound
            == 0x1_0000_0000_0000_0000),
    ensures
        nearest_whole(n) <= bound,
{
    lemma2_to64();
    lemma2_to64_rest();
    if n >= TWO_53 {
        let halvings = lemma_few_halvings(n, 1);
        let power = pow2(halvings);
        lemma_pow2_pos(halvings);
        let c = lemma_split_bound(bound, halvings);
        law_nearest_large(n, 1);
        assert(2 * n < 2 * (bound * 1) + 1 * power) by {
            if bound == 0xFFFF_FFFF_FFFF_F800 && n > bound {
                if halvings < 11 {
                    if halvings < 10 {
                        lemma_pow2_strictly_increases(halvings, 10);
                    }
                    assert(power <= 0x400);
                    assert(n < TWO_53 * (1 * power));
                    assert(false);
                }
                assert(power == 0x800);
            }
        }
        lemma_large_upper(n, 1, bound, halvings, c);
    }
}

/// The greater of two quotients is not rounded to less than the other.
pub proof fn law_half_even_ordered(n: nat, d: nat, n2: nat, d2: nat)
    requires
        d > 0,
        d2 > 0,
        n * d2 <= n2 * d,
    ensures
        half_even(n, d) <= half_even(n2, d2),
{
    let q = n / d;
    let r = n % d;
    let q2 = n2 / d2;
    let r2 = n2 % d2;
    lemma_fundamental_div_mod(n as int, d as int);
    lemma_fundamental_div_mod(n2 as int, d2 as int);
    assert(n * d2 == (q * d + r) * d2 && n2 * d == (q2 * d2 + r2) * d) by (nonlinear_arith)
        requires
            n == d * q + r,
            n2 == d2 * q2 + r2,
    ;
    assert(q <= q2) by (nonlinear_arith)
        requires
            (q * d + r) * d2 <= (q2 * d2 + r2) * d,
            r >= 0,
            r2 < d2,
            d > 0,
            d2 > 0,
    ;
    if q == q2 {
        assert(r * d2 <= r2 * d) by (nonlinear_arith)
            requires
                (q * d + r) * d2 <= (q2 * d2 + r2) * d,
                q == q2,
        ;
        assert(2 * r > d ==> 2 * r2 > d2) by (nonlinear_arith)
            requires
                r * d2 <= r2 * d,
                d > 0,
                d2 > 0,
        ;
        assert(2 * r >= d ==> 2 * r2 >= d2) by (nonlinear_arith)
            requires
                r * d2 <= r2 * d,
                d > 0,
                d2 > 0,
        ;
    }
}

/// A quotient in units of `2^-k`, for a `k` that is large enough: by how many units its
/// significand counts, and what it is the rounding of.
proof fn lemma_in_units(n: nat, d: nat, k: nat) -> (unit: nat)
    requires
        0 < n,
        0 < d,
        nearest(n, d).shift <= k,
    ensures
        unit == pow2((k - nearest(n, d).shift) as nat),
        unit > 0,
        TWO_52 * (d * unit) <= n * pow2(k) < TWO_53 * (d * unit),
        nearest(n, d).significand == half_even(n * pow2(k), d * unit),
        nearest(n, d).numerator() * pow2(k) == nearest(n, d).significand * unit * nearest(
            n,
            d,
        ).denominator(),
{
    let x = nearest(n, d);
    let unit = pow2((k - x.shift) as nat);
    let whole = pow2(k);
    lemma_pow2_pos((k - x.shift) as nat);
    lemma_pow2_pos(k);
    lemma2_to64();
    if n < TWO_53 * d {
        law_nearest_small(n, d);
        let power = pow2(x.shift as nat);
        lemma_pow2_pos(x.shift as nat);
        lemma_pow2_adds(x.shift as nat, (k - x.shift) as nat);
        assert(whole == power * unit);
        assert(n * whole == (n * power) * unit) by (nonlinear_arith)
            requires
                whole == power * unit,
        ;
        let scaled = n * power;
        assert(TWO_52 * (d * unit) <= scaled * unit && scaled * unit < TWO_53 * (d * unit))
            by (nonlinear_arith)
            requires
                TWO_52 * d <= scaled,
                scaled < TWO_53 * d,
                unit > 0,
        ;
        lemma_half_even_scaled(scaled, d, unit);
        assert(x.significand * whole == x.significand * unit * power) by (nonlinear_arith)
            requires
                whole == power * unit,
        ;
    } else {
        law_nearest_large(n, d);
        let halvings = (-x.shift) as nat;
        let power = pow2(halvings);
        lemma_pow2_pos(halvings);
        lemma_pow2_adds(halvings, k);
        assert(unit == power * whole);
        let divisor = d * power;
        assert(d * unit == divisor * whole) by (nonlinear_arith)
            requires
                unit == power * whole,
                divisor == d * power,
        ;
        assert(TWO_52 * (divisor * whole) <= n * whole && n * whole < TWO_53 * (divisor * whole))
            by (nonlinear_arith)
            requires
                TWO_52 * divisor <= n,
                n < TWO_53 * divisor,
                whole > 0,
        ;
        assert(divisor > 0) by (nonlinear_arith)
            requires
                divisor == d * power,
                d > 0,
                power > 0,
        ;
        lemma_half_even_scaled(n, divisor, whole);
        assert((x.significand * power) * whole == x.significand * unit * 1) by (nonlinear_arith)
            requires
                unit == power * whole,
        ;
    }
    unit
}

/// A fraction is rounded alike when both its parts are multiplied.
proof fn lemma_half_even_scaled(n: nat, d: nat, factor: nat)
    requires
        d > 0,
        factor > 0,
    ensures
        half_even(n * factor, d * factor) == half_even(n, d),
{
    assert(d * factor > 0) by (nonlinear_arith)
        requires
            d > 0,
            factor > 0,
    ;
    assert((n * factor) * d == n * (d * factor)) by (nonlinear_arith);
    law_half_even_ordered(n * factor, d * factor, n, d);
    law_half_even_ordered(n, d, n * factor, d * factor);
}

/// A significand has 53 bits, or is the next power of two.
proof fn lemma_significand_bounds(scaled: nat, divisor: nat)
    requires
        divisor > 0,
        TWO_52 * divisor <= scaled < TWO_53 * divisor,
    ensures
        TWO_52 <= half_even(scaled, divisor) <= TWO_53,
{
    let least = TWO_52 as nat;
    let most = TWO_53 as nat;
    lemma_half_even_multiple(least, divisor);
    lemma_half_even_multiple(most, divisor);
    assert((least * divisor) * divisor <= scaled * divisor) by (nonlinear_arith)
        requires
            least * divisor <= scaled,
            divisor > 0,
    ;
    assert(scaled * divisor <= (most * divisor) * divisor) by (nonlinear_arith)
        requires
            scaled < most * divisor,
            divisor > 0,
    ;
    law_half_even_ordered(least * divisor, divisor, scaled, divisor);
    law_half_even_ordered(scaled, divisor, most * divisor, divisor);
}

/// Rounding a quotient keeps the order: with the same divisor, what is more is not rounded
/// to less.
pub proof fn law_nearest_ordered(n: nat, n2: nat, d: nat)
    requires
        0 < d,
        n <= n2,
    ensures
        nearest(n, d).numerator() * nearest(n2, d).denominator() <= nearest(n2, d).numerator()
            * nearest(n, d).denominator(),
        nearest(n, d).denominator() > 0,
{
    let x = nearest(n, d);
    let y = nearest(n2, d);
    lemma2_to64();
    if x.shift >= 0 {
        lemma_pow2_pos(x.shift as nat);
    }
    if y.shift >= 0 {
        lemma_pow2_pos(y.shift as nat);
    }
    if n == 0 {
        assert(0 * d == 0) by (nonlinear_arith);
        lemma_half_even_multiple(0, d);
        assert(x.numerator() == 0);
        assert(0 * y.denominator() <= y.numerator() * x.denominator()) by (nonlinear_arith);
    } else {
        let k: nat = if x.shift >= y.shift && x.shift >= 0 {
            x.shift as nat
        } else if y.shift >= 0 {
            y.shift as nat
        } else {
            0
        };
        let whole = pow2(k);
        lemma_pow2_pos(k);
        let u = lemma_in_units(n, d, k);
        let u2 = lemma_in_units(n2, d, k);
        assert(d * u > 0 && d * u2 > 0) by (nonlinear_arith)
            requires
                d > 0,
                u > 0,
                u2 > 0,
        ;
        assert(n * whole <= n2 * whole) by (nonlinear_arith)
            requires
                n <= n2,
        ;
        lemma_significand_bounds(n * whole, d * u);
        lemma_significand_bounds(n2 * whole, d * u2);
        let e = (k - x.shift) as nat;
        let e2 = (k - y.shift) as nat;
        let a = x.significand;
        let b = y.significand;
        assert(a * u <= b * u2) by {
            if e == e2 {
                assert((n * whole) * (d * u2) <= (n2 * whole) * (d * u)) by (nonlinear_arith)
                    requires
                        n * whole <= n2 * whole,
                        u == u2,
                        d * u > 0,
                ;
                law_half_even_ordered(n * whole, d * u, n2 * whole, d * u2);
                assert(a * u <= b * u2) by (nonlinear_arith)
                    requires
                        a <= b,
                        u == u2,
                ;
            } else if e < e2 {
                lemma_pow2_unfold(e + 1);
                if e + 1 < e2 {
                    lemma_pow2_strictly_increases(e + 1, e2);
                }
                assert(a * u <= b * u2) by (nonlinear_arith)
                    requires
                        a <= TWO_53,
                        b >= TWO_52,
                        u2 >= 2 * u,
                        TWO_53 == 2 * TWO_52,
                ;
            } else {
                lemma_pow2_unfold(e2 + 1);
                if e2 + 1 < e {
                    lemma_pow2_strictly_increases(e2 + 1, e);
                }
                assert(TWO_53 * (d * u2) <= TWO_52 * (d * u)) by (nonlinear_arith)
                    requires
                        u >= 2 * u2,
                        TWO_53 == 2 * TWO_52,
                ;
            }
        }
        let p = x.numerator();
        let q = x.denominator();
        let p2 = y.numerator();
        let q2 = y.denominator();
        assert(p * q2 <= p2 * q) by (nonlinear_arith)
            requires
                p * whole == a * u * q,
                p2 * whole == b * u2 * q2,
                a * u <= b * u2,
                whole > 0,
                q > 0,
                q2 > 0,
        ;
    }
}

/// Rounding a count keeps the order.
pub proof fn law_nearest_whole_ordered(n: nat, n2: nat)
    requires
        n <= n2,
    ensures
        nearest_whole(n) <= nearest_whole(n2),
{
    if n2 >= TWO_53 {
        law_nearest_ordered(n, n2, 1);
        law_nearest_large(n2, 1);
        assert(nearest(n2, 1).denominator() == 1);
        let bound = nearest(n2, 1).numerator();
        if n < TWO_53 {
            law_nearest_exact(n, 1);
            assert(n * 1 == n);
            let q = nearest(n, 1).denominator();
            assert(n <= bound) by (nonlinear_arith)
                requires
                    n * q * 1 <= bound * q,
                    q > 0,
            ;
        } else {
            law_nearest_large(n, 1);
        }
    }
}

/// What lies halfway between two whole numbers is rounded to the even one, and what does not
/// to the nearer one.
pub proof fn law_half_even_is_nearest(n: nat, d: nat, k: nat)
    requires
        d > 0,
    ensures
        2 * n == (2 * k + 1) * d ==> half_even(n, d) == if k % 2 == 0 {
            k
        } else {
            k + 1
        },
        (2 * k + 1) * d < 2 * n < (2 * k + 3) * d ==> half_even(n, d) == k + 1,
        2 * n < d ==> half_even(n, d) == 0,
{
    let quotient = n as int / d as int;
    let rest = n as int % d as int;
    lemma_fundamental_div_mod(n as int, d as int);
    if 2 * n == (2 * k + 1) * d {
        assert(quotient == k && 2 * rest == d) by (nonlinear_arith)
            requires
                n == d * quotient + rest,
                0 <= rest < d,
                2 * n == (2 * k + 1) * d,
        ;
    }
    if (2 * k + 1) * d < 2 * n < (2 * k + 3) * d {
        assert((quotient == k && 2 * rest > d) || (quotient == k + 1 && 2 * rest < d))
            by (nonlinear_arith)
            requires
                n == d * quotient + rest,
                0 <= rest < d,
                (2 * k + 1) * d < 2 * n,
                2 * n < (2 * k + 3) * d,
        ;
    }
    if 2 * n < d {
        assert(quotient == 0) by (nonlinear_arith)
            requires
                n == d * quotient + rest,
                0 <= rest < d,
                2 * n < d,
        ;
    }
}

/// A whole number below `2^53` is kept; from there on it becomes a multiple of the power of
/// two that leaves it 53 bits, and of those the nearest.
pub proof fn law_whole_numbers_keep_53_bits(n: nat)
    ensures
        n < 0x20_0000_0000_0000 ==> nearest_whole(n) == n,
        n >= 0x20_0000_0000_0000 ==> {
            let unit = pow2((-nearest(n, 1).shift) as nat);
            &&& 0x10_0000_0000_0000 * unit <= n < 0x20_0000_0000_0000 * unit
            &&& nearest_whole(n) == half_even(n, unit) * unit
        },
{
    if n >= TWO_53 {
        law_nearest_large(n, 1);
        let unit = pow2((-nearest(n, 1).shift) as nat);
        assert(1 * unit == unit);
    }
}

/// Quotients of counts that are below `2^53` are rounded once, and a rounded number is
/// scaled exactly before it is rounded to a whole one.
pub proof fn law_counts_are_rounded_once(n: nat, d: nat, scale: nat)
    requires
        n < 0x20_0000_0000_0000,
        0 < d < 0x20_0000_0000_0000,
    ensures
        quotient(n, d) == nearest(n, d),
        nearest(n, d).shift >= 0,
        round_scaled(quotient(n, d), scale) == half_even(
            nearest(n, d).significand * scale,
            pow2(nearest(n, d).shift as nat),
        ),
{
    assert(n < TWO_53 * d) by (nonlinear_arith)
        requires
            n < TWO_53,
            d > 0,
    ;
    if n > 0 {
        law_nearest_small(n, d);
    }
}

} // verus!
