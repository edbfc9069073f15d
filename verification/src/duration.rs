//! Spans of time, counted in whole nanoseconds.

use vstd::prelude::*;

use crate::binary64::{
    div_counts, half_even, law_half_even_ordered, law_nearest_exact, law_nearest_ordered,
    law_nearest_small, law_nearest_whole_ordered, law_nearest_whole_positive, lemma_half_even,
    lemma_half_even_multiple, lemma_quotient_upper, nearest, nearest_whole, quotient,
    round_scaled, scale_rounded, TWO_52, TWO_53,
};
use vstd::arithmetic::power2::{lemma2_to64, lemma_pow2_pos, pow2};

verus! {

/// Nanoseconds in one second.
pub const NANOS_PER_SEC: u128 = 1_000_000_000;

/// The longest span: `u64::MAX` seconds and 999999999 nanoseconds.
pub const MAX_NANOS: u128 = 18_446_744_073_709_551_615_999_999_999;

/// A span of time with a resolution of one nanosecond and at most
/// [`MAX_NANOS`] nanoseconds. Its view is the number of nanoseconds.
#[derive(Clone, Copy, Debug, PartialEq, Eq, Structural)]
pub struct Duration {
    nanos: u128,
}

/// The nanoseconds in `count / per_second` seconds, as binary64 arithmetic gives
/// them.
pub open spec fn nanos_of_quotient(count: nat, per_second: nat) -> nat {
    round_scaled(quotient(count, per_second), NANOS_PER_SEC as nat)
}

/// What a quotient of counts comes to is in the range of [`Duration`].
proof fn lemma_quotient_in_range(count: nat, per_second: nat)
    requires
        per_second > 0,
        count < 0xFFFF_FFFF_FFFF_FC00 || (count <= u64::MAX && 1 < per_second <= u64::MAX),
    ensures
        nanos_of_quotient(count, per_second) <= MAX_NANOS,
{
    lemma_quotient_upper(count, per_second);
    let x = quotient(count, per_second);
    lemma_pow2_pos(x.shift as nat);
    lemma_half_even(x.numerator() * NANOS_PER_SEC as nat, x.denominator());
}

/// A count of zero lasts no time.
pub proof fn law_nothing_lasts_no_time(per_second: nat)
    requires
        per_second > 0,
    ensures
        nanos_of_quotient(0, per_second) == 0,
{
    let d = nearest_whole(per_second);
    law_nearest_whole_positive(per_second);
    assert(nearest(0, d).significand == 0);
    lemma2_to64();
    assert(quotient(0, per_second).denominator() == 1);
    assert(half_even(0, 1) == 0);
}

/// Counts that make up whole seconds last exactly those seconds, where no count is so
/// large that it is itself rounded.
pub proof fn law_whole_seconds(seconds: nat, per_second: nat)
    requires
        0 < per_second < TWO_53,
        seconds * per_second < TWO_53,
    ensures
        nanos_of_quotient(seconds * per_second, per_second) == seconds * NANOS_PER_SEC,
{
    assert(seconds < TWO_53) by (nonlinear_arith)
        requires
            seconds * per_second < TWO_53,
            per_second > 0,
    ;
    law_nearest_exact(seconds, per_second);
    let x = nearest(seconds * per_second, per_second);
    let scale = NANOS_PER_SEC as nat;
    let k = seconds * scale;
    assert(x.numerator() * scale == k * x.denominator()) by (nonlinear_arith)
        requires
            x.numerator() == seconds * x.denominator(),
            k == seconds * scale,
    ;
    lemma_half_even_multiple(k, x.denominator());
}

/// Counts last in their order: more of them do not last less.
pub proof fn law_time_follows_counts(count: nat, more: nat, per_second: nat)
    requires
        per_second > 0,
        count <= more,
    ensures
        nanos_of_quotient(count, per_second) <= nanos_of_quotient(more, per_second),
{
    let d = nearest_whole(per_second);
    law_nearest_whole_positive(per_second);
    law_nearest_whole_ordered(count, more);
    let x = quotient(count, per_second);
    let y = quotient(more, per_second);
    law_nearest_ordered(nearest_whole(count), nearest_whole(more), d);
    law_nearest_ordered(nearest_whole(more), nearest_whole(more), d);
    let scale = NANOS_PER_SEC as nat;
    let (p, q, p2, q2) = (x.numerator(), x.denominator(), y.numerator(), y.denominator());
    assert((p * scale) * q2 <= (p2 * scale) * q) by (nonlinear_arith)
        requires
            p * q2 <= p2 * q,
    ;
    law_half_even_ordered(p * scale, q, p2 * scale, q2);
}

/// How far a quotient of counts can be from what it is rounded to: one part in `2^53`.
proof fn lemma_quotient_error(count: nat, per_second: nat)
    requires
        0 < per_second < TWO_53,
        count < TWO_53,
    ensures
        quotient(count, per_second) == nearest(count, per_second),
        nearest(count, per_second).shift >= 0,
        nearest(count, per_second).denominator() > 0,
        nearest(count, per_second).numerator() * per_second * TWO_53 <= count * nearest(
            count,
            per_second,
        ).denominator() * (TWO_53 + 1),
        nearest(count, per_second).numerator() * per_second * TWO_53 >= count * nearest(
            count,
            per_second,
        ).denominator() * (TWO_53 - 1),
{
    lemma2_to64();
    let x = nearest(count, per_second);
    assert(count < TWO_53 * per_second) by (nonlinear_arith)
        requires
            count < TWO_53,
            per_second > 0,
    ;
    if count == 0 {
        assert(0 * per_second == 0) by (nonlinear_arith);
        lemma_half_even_multiple(0, per_second);
        assert(x.numerator() == 0 && x.denominator() == 1);
        assert(0 * per_second * TWO_53 == 0) by (nonlinear_arith);
        assert(0 * 1 * (TWO_53 + 1) == 0 && 0 * 1 * (TWO_53 - 1) == 0) by (nonlinear_arith);
    } else {
        law_nearest_small(count, per_second);
        let power = pow2(x.shift as nat);
        lemma_pow2_pos(x.shift as nat);
        lemma_half_even(count * power, per_second);
        let (a, n, r) = (x.significand, count * power, per_second);
        assert(a * r * TWO_53 <= n * (TWO_53 + 1) && a * r * TWO_53 >= n * (TWO_53 - 1))
            by (nonlinear_arith)
            requires
                2 * a * r <= 2 * n + r,
                2 * n <= 2 * a * r + r,
                TWO_52 * r <= n,
                TWO_53 == 2 * TWO_52,
                TWO_52 > 0,
        ;
    }
}

/// Each count takes time: fewer than `2^51` of them, at no more than half as many a second
/// as there are nanoseconds, last strictly longer with each one more.
pub proof fn law_each_count_takes_time(count: nat, more: nat, per_second: nat)
    requires
        0 < per_second <= 500_000_000,
        count < more < 0x8_0000_0000_0000,
    ensures
        nanos_of_quotient(count, per_second) < nanos_of_quotient(more, per_second),
{
    lemma_quotient_error(count, per_second);
    lemma_quotient_error(more, per_second);
    let x = quotient(count, per_second);
    let y = quotient(more, per_second);
    let scale = NANOS_PER_SEC as nat;
    let (a, p, b, q) = (x.numerator(), x.denominator(), y.numerator(), y.denominator());
    lemma_half_even(a * scale, p);
    lemma_half_even(b * scale, q);
    let early = half_even(a * scale, p);
    let late = half_even(b * scale, q);
    let r = per_second;
    let unit = TWO_53 as int;
    let area = p * q;
    let gap = b * p - a * q;
    assert(area > 0) by (nonlinear_arith)
        requires
            area == p * q,
            p > 0,
            q > 0,
    ;
    assert(b * r * unit * p >= more * area * (unit - 1)) by (nonlinear_arith)
        requires
            b * r * unit >= more * q * (unit - 1),
            area == p * q,
            p > 0,
    ;
    assert(a * r * unit * q <= count * area * (unit + 1)) by (nonlinear_arith)
        requires
            a * r * unit <= count * p * (unit + 1),
            area == p * q,
            q > 0,
    ;
    assert(gap * r * unit == b * r * unit * p - a * r * unit * q) by (nonlinear_arith)
        requires
            gap == b * p - a * q,
    ;
    let lead = more * (unit - 1) - count * (unit + 1);
    assert(more * area * (unit - 1) - count * area * (unit + 1) == area * lead)
        by (nonlinear_arith)
        requires
            lead == more * (unit - 1) - count * (unit + 1),
    ;
    assert(lead == (more - count) * unit - (more + count)) by (nonlinear_arith)
        requires
            lead == more * (unit - 1) - count * (unit + 1),
    ;
    assert((more - count) * unit >= unit) by (nonlinear_arith)
        requires
            more - count >= 1,
            unit > 0,
    ;
    assert(2 * lead > unit);
    assert(2 * (area * lead) > area * unit) by (nonlinear_arith)
        requires
            2 * lead > unit,
            area > 0,
    ;
    assert(2 * gap * r > area) by (nonlinear_arith)
        requires
            2 * (gap * r * unit) > area * unit,
            unit > 0,
    ;
    assert(gap > 0) by (nonlinear_arith)
        requires
            2 * gap * r > area,
            area > 0,
            r > 0,
    ;
    assert(gap * scale > area) by (nonlinear_arith)
        requires
            2 * gap * r > area,
            gap > 0,
            scale >= 2 * r,
    ;
    if late <= early {
        assert(2 * late * q * p <= 2 * early * p * q) by (nonlinear_arith)
            requires
                late <= early,
        ;
        assert(2 * early * p * q <= 2 * (a * scale) * q + area) by (nonlinear_arith)
            requires
                2 * early * p <= 2 * (a * scale) + p,
                area == p * q,
        ;
        assert(2 * (b * scale) * p <= 2 * late * q * p + area) by (nonlinear_arith)
            requires
                2 * (b * scale) <= 2 * late * q + q,
                area == p * q,
        ;
        assert(2 * (b * scale) * p - 2 * (a * scale) * q == 2 * (gap * scale))
            by (nonlinear_arith)
            requires
                gap == b * p - a * q,
        ;
    }
}

/// A quotient of counts that is scaled and rounded to a whole number is as near to what it
/// stands for as half a unit and one part in `2^53`, where no count is so large that it is
/// itself rounded.
pub proof fn law_scaled_quotients_are_near(n: nat, d: nat, scale: nat)
    requires
        0 < d < TWO_53,
        n < TWO_53,
    ensures
        ({
            let unit = 0x20_0000_0000_0000int;
            let exact = scale * n;
            let found = round_scaled(quotient(n, d), scale) * d;
            &&& 2 * unit * found <= 2 * unit * exact + 2 * exact + unit * d
            &&& 2 * unit * exact <= 2 * unit * found + 2 * exact + unit * d
        }),
{
    lemma_quotient_error(n, d);
    let x = quotient(n, d);
    let factor = scale as int;
    let (a, p, r) = (x.numerator() as int, x.denominator() as int, d as int);
    lemma_half_even(x.numerator() * scale, x.denominator());
    let scaled = round_scaled(x, scale) as int;
    let unit = TWO_53 as int;
    let c = n as int;
    let found = scaled * r;
    let exact = factor * c;
    assert(a * r * unit <= c * p * (unit + 1) && a * r * unit >= c * p * (unit - 1));
    assert(x.numerator() * scale == a * factor) by (nonlinear_arith)
        requires
            a == x.numerator(),
            factor == scale,
    ;
    assert(2 * scaled * p <= 2 * (a * factor) + p && 2 * (a * factor) <= 2 * scaled * p + p);
    let weight = r * unit;
    assert(weight > 0) by (nonlinear_arith)
        requires
            weight == r * unit,
            r > 0,
            unit > 0,
    ;
    assert((2 * scaled * p) * weight == 2 * unit * found * p) by (nonlinear_arith)
        requires
            weight == r * unit,
            found == scaled * r,
    ;
    assert((2 * scaled * p) * weight <= (2 * (a * factor)) * weight + p * weight)
        by (nonlinear_arith)
        requires
            2 * scaled * p <= 2 * (a * factor) + p,
            weight > 0,
    ;
    assert((2 * (a * factor)) * weight <= (2 * scaled * p) * weight + p * weight)
        by (nonlinear_arith)
        requires
            2 * (a * factor) <= 2 * scaled * p + p,
            weight > 0,
    ;
    let rough = a * r * unit;
    let above = c * p * (unit + 1);
    let below = c * p * (unit - 1);
    assert(2 * factor * rough <= 2 * factor * above && 2 * factor * below <= 2 * factor * rough)
        by (nonlinear_arith)
        requires
            below <= rough <= above,
            factor >= 0,
    ;
    assert((2 * (a * factor)) * weight == 2 * factor * rough) by (nonlinear_arith)
        requires
            weight == r * unit,
            rough == a * r * unit,
    ;
    assert(2 * factor * above == (2 * unit * exact + 2 * exact) * p) by (nonlinear_arith)
        requires
            exact == factor * c,
            above == c * p * (unit + 1),
    ;
    assert(2 * factor * below == (2 * unit * exact - 2 * exact) * p) by (nonlinear_arith)
        requires
            exact == factor * c,
            below == c * p * (unit - 1),
    ;
    assert(2 * unit * found <= 2 * unit * exact + 2 * exact + weight) by (nonlinear_arith)
        requires
            2 * unit * found * p <= (2 * unit * exact + 2 * exact) * p + p * weight,
            p > 0,
    ;
    assert(2 * unit * exact - 2 * exact <= 2 * unit * found + weight) by (nonlinear_arith)
        requires
            (2 * unit * exact - 2 * exact) * p <= 2 * unit * found * p + p * weight,
            p > 0,
    ;
    assert(weight == unit * r) by (nonlinear_arith)
        requires
            weight == r * unit,
    ;
    assert(scale * n == exact) by (nonlinear_arith)
        requires
            exact == factor * c,
            factor == scale,
            c == n,
    ;
}

/// Counts last as long as they say: `count / per_second` seconds in nanoseconds, but for half
/// a nanosecond and one part in `2^53`, where no count is so large that it is itself rounded.
pub proof fn law_time_is_what_counts_say(count: nat, per_second: nat)
    requires
        0 < per_second < TWO_53,
        count < TWO_53,
    ensures
        ({
            let unit = 0x20_0000_0000_0000int;
            let exact = 1_000_000_000 * count;
            let found = nanos_of_quotient(count, per_second) * per_second;
            &&& 2 * unit * found <= 2 * unit * exact + 2 * exact + unit * per_second
            &&& 2 * unit * exact <= 2 * unit * found + 2 * exact + unit * per_second
        }),
{
    law_scaled_quotients_are_near(count, per_second, NANOS_PER_SEC as nat);
}

impl View for Duration {
    type V = nat;

    closed spec fn view(&self) -> nat {
        self.nanos as nat
    }
}

/// The empty span has no length.
pub proof fn lemma_empty_span()
    ensures
        Duration::empty()@ == 0,
{
}

impl Default for Duration {
    /// The empty span.
    fn default() -> (span: Self)
        ensures
            span@ == 0,
    {
        Duration { nanos: 0 }
    }
}

impl Duration {
    #[verifier::type_invariant]
    spec fn in_range(self) -> bool {
        self.nanos <= MAX_NANOS
    }

    /// The empty span.
    pub closed spec fn empty() -> Duration {
        Duration { nanos: 0 }
    }

    /// The empty span.
    pub fn zero() -> (span: Self)
        ensures
            span@ == 0,
            span == Duration::empty(),
    {
        Duration { nanos: 0 }
    }

    /// The span of `nanos` nanoseconds.
    pub fn from_nanos(nanos: u128) -> (span: Self)
        requires
            nanos <= MAX_NANOS,
        ensures
            span@ == nanos,
    {
        Duration { nanos }
    }

    /// The span of `secs` seconds.
    pub fn from_secs(secs: u64) -> (span: Self)
        ensures
            span@ == secs * NANOS_PER_SEC,
    {
        Duration { nanos: secs as u128 * NANOS_PER_SEC }
    }

    /// The span of `millis` milliseconds.
    pub fn from_millis(millis: u64) -> (span: Self)
        ensures
            span@ == millis * 1_000_000,
    {
        Duration { nanos: millis as u128 * 1_000_000 }
    }

    /// The span of `count / per_second` seconds: the quotient in the precision of a
    /// binary64 number, and that rounded to whole nanoseconds, half to even.
    ///
    /// A quotient that is rounded to `2^64` seconds is out of range.
    pub fn from_quotient(count: u64, per_second: u64) -> (span: Self)
        requires
            per_second > 0,
            count < 0xFFFF_FFFF_FFFF_FC00 || per_second > 1,
        ensures
            span@ == nanos_of_quotient(count as nat, per_second as nat),
    {
        proof {
            lemma_quotient_in_range(count as nat, per_second as nat);
        }
        let quotient = div_counts(count as u128, per_second as u128);
        Duration { nanos: scale_rounded(quotient, NANOS_PER_SEC) }
    }

    /// The whole number of nanoseconds.
    pub fn as_nanos(&self) -> (nanos: u128)
        ensures
            nanos == self@,
            nanos <= MAX_NANOS,
    {
        proof {
            use_type_invariant(self);
        }
        self.nanos
    }

    /// The whole number of seconds, leaving a fraction out.
    pub fn as_secs(&self) -> (secs: u64)
        ensures
            secs == self@ / NANOS_PER_SEC as nat,
    {
        proof {
            use_type_invariant(self);
        }
        (self.nanos / NANOS_PER_SEC) as u64
    }

    /// The nanoseconds beyond the whole seconds.
    pub fn subsec_nanos(&self) -> (nanos: u32)
        ensures
            nanos == self@ % NANOS_PER_SEC as nat,
    {
        (self.nanos % NANOS_PER_SEC) as u32
    }

    /// The milliseconds beyond the whole seconds, leaving a fraction out.
    pub fn subsec_millis(&self) -> (millis: u32)
        ensures
            millis == (self@ % NANOS_PER_SEC as nat) / 1_000_000,
    {
        (self.nanos % NANOS_PER_SEC / 1_000_000) as u32
    }

    /// Whether the span is empty.
    pub fn is_zero(&self) -> (zero: bool)
        ensures
            zero == (self@ == 0),
    {
        self.nanos == 0
    }

    /// Whether this span is shorter than `other`.
    pub fn is_shorter_than(&self, other: &Duration) -> (shorter: bool)
        ensures
            shorter == (self@ < other@),
    {
        self.nanos < other.nanos
    }

    /// The shorter of two spans.
    pub fn min(self, other: Duration) -> (span: Duration)
        ensures
            span == if other@ < self@ {
                other
            } else {
                self
            },
    {
        if other.nanos < self.nanos {
            other
        } else {
            self
        }
    }

    /// The longer of two spans.
    pub fn max(self, other: Duration) -> (span: Duration)
        ensures
            span == if self@ < other@ {
                other
            } else {
                self
            },
    {
        if self.nanos < other.nanos {
            other
        } else {
            self
        }
    }

    /// The sum of two spans, or the longest span where the sum is out of range.
    pub fn saturating_add(self, other: Duration) -> (span: Duration)
        ensures
            span@ == if self@ + other@ <= MAX_NANOS {
                self@ + other@
            } else {
                MAX_NANOS as nat
            },
    {
        proof {
            use_type_invariant(&self);
            use_type_invariant(&other);
        }
        let sum: u128 = self.nanos + other.nanos;
        if sum <= MAX_NANOS {
            Duration { nanos: sum }
        } else {
            Duration { nanos: MAX_NANOS }
        }
    }

    /// What is left of this span once `other` is taken away, or the empty span
    /// where `other` is the longer one.
    pub fn saturating_sub(self, other: Duration) -> (span: Duration)
        ensures
            span@ == if other@ <= self@ {
                (self@ - other@) as nat
            } else {
                0
            },
    {
        proof {
            use_type_invariant(&self);
        }
        if other.nanos <= self.nanos {
            Duration { nanos: self.nanos - other.nanos }
        } else {
            Duration { nanos: 0 }
        }
    }
}

/// The longest span is one nanosecond short of `2^64` seconds.
pub proof fn law_the_longest_span()
    ensures
        MAX_NANOS + 1 == 0x1_0000_0000_0000_0000 * 1_000_000_000,
        NANOS_PER_SEC == 1_000 * 1_000 * 1_000,
{
}

} // verus!
