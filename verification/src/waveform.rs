//! The outline of a sound: for each stretch of it, its least and its greatest
//! sample.

use vstd::arithmetic::div_mod::{
    lemma_div_is_ordered, lemma_div_pos_is_pos, lemma_fundamental_div_mod,
    lemma_fundamental_div_mod_converse,
};
use vstd::prelude::*;

use crate::sample::{greater, lesser, Sample};

verus! {

/// The most stretches into which a sound is split.
pub const WAVEFORM_PEAK_COUNT: usize = 1_536;

/// The extremes of one stretch of sound. Silence counts as part of every stretch,
/// so the least sample is never above zero and the greatest never below it.
#[derive(Clone, Copy, Debug, PartialEq, Eq, Structural)]
pub struct WaveformBucket {
    pub minimum: Sample,
    pub maximum: Sample,
}

impl WaveformBucket {
    /// The bucket of a stretch of silence.
    pub open spec fn silent() -> WaveformBucket {
        WaveformBucket { minimum: Sample { bits: 0 }, maximum: Sample { bits: 0 } }
    }
}

/// Whether `least` is the least of the samples at the positions that `member` picks
/// out of `samples`, and of zero: it is zero or one of those samples, and no number
/// among them lies below it.
pub open spec fn is_least(
    least: Sample,
    samples: Seq<Sample>,
    member: spec_fn(int) -> bool,
) -> bool {
    &&& least.is_number() && least.rank() <= 0
    &&& least.rank() == 0 ==> least == Sample { bits: 0 }
    &&& least == Sample { bits: 0 } || exists|i: int|
        0 <= i < samples.len() && #[trigger] samples[i] == least && member(i)
    &&& forall|i: int|
        0 <= i < samples.len() && member(i) && (#[trigger] samples[i]).is_number()
            ==> least.rank() <= samples[i].rank()
}

/// Whether `greatest` is the greatest of the samples at the positions that `member`
/// picks out of `samples`, and of zero.
pub open spec fn is_greatest(
    greatest: Sample,
    samples: Seq<Sample>,
    member: spec_fn(int) -> bool,
) -> bool {
    &&& greatest.is_number() && greatest.rank() >= 0
    &&& greatest.rank() == 0 ==> greatest == Sample { bits: 0 }
    &&& greatest == Sample { bits: 0 } || exists|i: int|
        0 <= i < samples.len() && #[trigger] samples[i] == greatest && member(i)
    &&& forall|i: int|
        0 <= i < samples.len() && member(i) && (#[trigger] samples[i]).is_number()
            ==> greatest.rank() >= samples[i].rank()
}

/// Whether `bucket` holds the extremes of the samples at the positions that `member`
/// picks out of `samples`, and of silence.
pub open spec fn is_outline(
    bucket: WaveformBucket,
    samples: Seq<Sample>,
    member: spec_fn(int) -> bool,
) -> bool {
    is_least(bucket.minimum, samples, member) && is_greatest(bucket.maximum, samples, member)
}

/// There is one outline only.
pub proof fn law_outline_is_unique(
    a: WaveformBucket,
    b: WaveformBucket,
    samples: Seq<Sample>,
    member: spec_fn(int) -> bool,
)
    requires
        is_outline(a, samples, member),
        is_outline(b, samples, member),
    ensures
        a == b,
{
    assert(a.minimum.rank() == b.minimum.rank());
    assert(a.maximum.rank() == b.maximum.rank());
}

/// The number of buckets for a sound of `frame_count` frames.
pub open spec fn bucket_count(frame_count: nat) -> nat {
    if frame_count <= WAVEFORM_PEAK_COUNT {
        frame_count
    } else {
        WAVEFORM_PEAK_COUNT as nat
    }
}

/// The bucket into which the sample at `index` falls: frames are spread evenly.
/// The product saturates, as the machine's word has it.
pub open spec fn bucket_of(index: int, channel_count: nat, frame_count: nat) -> int {
    let product = (index / channel_count as int) * bucket_count(frame_count);
    if product <= usize::MAX {
        product / frame_count as int
    } else {
        usize::MAX as int / frame_count as int
    }
}

/// The product of two counts, or the greatest count where it is out of range.
pub fn saturating_product(a: usize, b: usize) -> (product: usize)
    ensures
        product == if a * b <= usize::MAX {
            a * b
        } else {
            usize::MAX as int
        },
{
    match a.checked_mul(b) {
        Some(product) => product,
        None => usize::MAX,
    }
}

/// The outline of one bucket once it takes in one more sample.
fn widen(bucket: WaveformBucket, sample: Sample) -> (wider: WaveformBucket)
    ensures
        wider.minimum == lesser(bucket.minimum, sample),
        wider.maximum == greater(bucket.maximum, sample),
{
    WaveformBucket {
        minimum: bucket.minimum.min(sample),
        maximum: bucket.maximum.max(sample),
    }
}

/// Taking in the next sample keeps the least one right.
proof fn lemma_take_least(
    least: Sample,
    samples: Seq<Sample>,
    next: int,
    member: spec_fn(int) -> bool,
)
    requires
        0 <= next < samples.len(),
        is_least(least, samples.take(next), member),
    ensures
        member(next) ==> is_least(
            lesser(least, samples[next]),
            samples.take(next + 1),
            member,
        ),
        !member(next) ==> is_least(least, samples.take(next + 1), member),
{
    let before = samples.take(next);
    let after = samples.take(next + 1);
    assert(after[next] == samples[next]);
    assert forall|i: int| 0 <= i < before.len() implies after[i] == #[trigger] before[i] by {}
    if least != (Sample { bits: 0 }) {
        let i = choose|i: int| 0 <= i < before.len() && #[trigger] before[i] == least && member(i);
        assert(after[i] == least);
    }
    assert forall|i: int|
        0 <= i < after.len() && i < next && member(i) && (
        #[trigger] after[i]).is_number() implies least.rank() <= after[i].rank() by {
        assert(before[i] == after[i]);
    }
}

/// Taking in the next sample keeps the greatest one right.
proof fn lemma_take_greatest(
    greatest: Sample,
    samples: Seq<Sample>,
    next: int,
    member: spec_fn(int) -> bool,
)
    requires
        0 <= next < samples.len(),
        is_greatest(greatest, samples.take(next), member),
    ensures
        member(next) ==> is_greatest(
            greater(greatest, samples[next]),
            samples.take(next + 1),
            member,
        ),
        !member(next) ==> is_greatest(greatest, samples.take(next + 1), member),
{
    let before = samples.take(next);
    let after = samples.take(next + 1);
    assert(after[next] == samples[next]);
    assert forall|i: int| 0 <= i < before.len() implies after[i] == #[trigger] before[i] by {}
    if greatest != (Sample { bits: 0 }) {
        let i = choose|i: int|
            0 <= i < before.len() && #[trigger] before[i] == greatest && member(i);
        assert(after[i] == greatest);
    }
    assert forall|i: int|
        0 <= i < after.len() && i < next && member(i) && (
        #[trigger] after[i]).is_number() implies greatest.rank() >= after[i].rank() by {
        assert(before[i] == after[i]);
    }
}

/// Whether `buckets` outline a sound of `frame_count` frames.
pub open spec fn is_waveform(
    buckets: Seq<WaveformBucket>,
    samples: Seq<Sample>,
    channel_count: nat,
    frame_count: nat,
) -> bool {
    &&& buckets.len() == bucket_count(frame_count)
    &&& forall|b: int|
        0 <= b < buckets.len() ==> is_outline(
            #[trigger] buckets[b],
            samples,
            |i: int| bucket_of(i, channel_count, frame_count) == b,
        )
}

/// Splits a sound into at most [`WAVEFORM_PEAK_COUNT`] buckets of frames and
/// outlines each. The samples of a frame, one for each channel, share a bucket;
/// nothing is scaled, so full scale stays full scale. Samples behind the last
/// frame fall into no bucket.
pub fn extract_waveform(
    samples: &Vec<Sample>,
    channel_count: usize,
    frame_count: usize,
) -> (buckets: Vec<WaveformBucket>)
    requires
        channel_count > 0,
    ensures
        is_waveform(buckets@, samples@, channel_count as nat, frame_count as nat),
{
    let mut buckets: Vec<WaveformBucket> = Vec::new();
    if frame_count == 0 {
        return buckets;
    }
    let count: usize = if frame_count <= WAVEFORM_PEAK_COUNT {
        frame_count
    } else {
        WAVEFORM_PEAK_COUNT
    };
    let mut made: usize = 0;
    while made < count
        invariant
            made <= count,
            buckets@.len() == made,
            forall|b: int| 0 <= b < made ==> #[trigger] buckets@[b] == WaveformBucket::silent(),
        decreases count - made,
    {
        buckets.push(WaveformBucket { minimum: Sample::zero(), maximum: Sample::zero() });
        made = made + 1;
    }
    let mut index: usize = 0;
    while index < samples.len()
        invariant
            index <= samples@.len(),
            channel_count > 0,
            frame_count > 0,
            count == bucket_count(frame_count as nat),
            buckets@.len() == count,
            forall|b: int|
                0 <= b < count ==> is_outline(
                    #[trigger] buckets@[b],
                    samples@.take(index as int),
                    |i: int| bucket_of(i, channel_count as nat, frame_count as nat) == b,
                ),
        decreases samples@.len() - index,
    {
        let ghost before = buckets@;
        let frame: usize = index / channel_count;
        let target: usize = saturating_product(frame, count) / frame_count;
        assert(target == bucket_of(index as int, channel_count as nat, frame_count as nat));
        if target < count {
            let wider = widen(buckets[target], samples[index]);
            buckets.set(target, wider);
        }
        proof {
            assert forall|b: int| 0 <= b < count implies is_outline(
                #[trigger] buckets@[b],
                samples@.take(index + 1),
                |i: int| bucket_of(i, channel_count as nat, frame_count as nat) == b,
            ) by {
                let member = |i: int|
                    bucket_of(i, channel_count as nat, frame_count as nat) == b;
                assert(is_outline(before[b], samples@.take(index as int), member));
                lemma_take_least(before[b].minimum, samples@, index as int, member);
                lemma_take_greatest(before[b].maximum, samples@, index as int, member);
            }
        }
        index = index + 1;
    }
    assert(samples@.take(index as int) =~= samples@);
    buckets
}

/// Every sample of a whole frame falls into a bucket, and later samples do not fall
/// into earlier buckets.
pub proof fn law_buckets_cover_frames(
    index: int,
    later: int,
    channel_count: nat,
    frame_count: nat,
)
    requires
        channel_count > 0,
        frame_count <= usize::MAX,
        0 <= index <= later < frame_count * channel_count,
    ensures
        0 <= bucket_of(index, channel_count, frame_count),
        bucket_of(index, channel_count, frame_count) <= bucket_of(later, channel_count, frame_count),
        bucket_of(later, channel_count, frame_count) < bucket_count(frame_count),
{
    let count = bucket_count(frame_count) as int;
    let frame = index / channel_count as int;
    let later_frame = later / channel_count as int;
    assert(frame_count > 0) by (nonlinear_arith)
        requires
            0 < frame_count * channel_count,
    ;
    lemma_div_is_ordered(index, later, channel_count as int);
    lemma_fundamental_div_mod(later, channel_count as int);
    assert(later_frame < frame_count) by (nonlinear_arith)
        requires
            later == channel_count * later_frame + later % channel_count as int,
            later % channel_count as int >= 0,
            later < frame_count * channel_count,
            channel_count > 0,
    ;
    assert(0 <= frame) by {
        lemma_div_pos_is_pos(index, channel_count as int);
    }
    assert(0 <= frame * count <= later_frame * count < frame_count * count) by (nonlinear_arith)
        requires
            0 <= frame <= later_frame < frame_count,
            count > 0,
    ;
    let low = if frame * count <= usize::MAX {
        frame * count
    } else {
        usize::MAX as int
    };
    let high = if later_frame * count <= usize::MAX {
        later_frame * count
    } else {
        usize::MAX as int
    };
    lemma_div_pos_is_pos(low, frame_count as int);
    lemma_div_is_ordered(low, high, frame_count as int);
    lemma_fundamental_div_mod(high, frame_count as int);
    let bucket = high / frame_count as int;
    assert(bucket < count) by (nonlinear_arith)
        requires
            high == frame_count * bucket + high % frame_count as int,
            high % frame_count as int >= 0,
            high < frame_count * count,
            frame_count > 0,
    ;
}

/// The number of bars that are drawn where there is room for `room` of them: at
/// least one, and no more than there are buckets.
pub open spec fn bar_count(room: nat, buckets: nat) -> nat {
    if room < 1 {
        1
    } else if room > buckets {
        buckets
    } else {
        room
    }
}

/// The first bucket that the bar at `bar` stands for. The product saturates, as the
/// machine's word has it.
pub open spec fn bar_start(bar: int, bars: nat, buckets: nat) -> int {
    let product = bar * buckets;
    if product <= usize::MAX {
        product / bars as int
    } else {
        usize::MAX as int / bars as int
    }
}

/// The bucket behind the last one that the bar at `bar` stands for: a bar stands for
/// one bucket at least.
pub open spec fn bar_end(bar: int, bars: nat, buckets: nat) -> int {
    let even = bar_start(bar + 1, bars, buckets);
    let least = bar_start(bar, bars, buckets) + 1;
    let end = if even < least {
        least
    } else {
        even
    };
    if end > buckets {
        buckets as int
    } else {
        end
    }
}

/// Whether the bucket at `i` belongs to the bar at `bar`.
pub open spec fn in_bar(i: int, bar: int, bars: nat, buckets: nat) -> bool {
    bar_start(bar, bars, buckets) <= i < bar_end(bar, bars, buckets)
}

/// Each bar ends where the next one starts, and the last one with the buckets.
proof fn lemma_bar_edges(bar: int, bars: nat, buckets: nat)
    requires
        0 < bars <= buckets,
        0 <= bar < bars,
        bars * buckets <= usize::MAX,
    ensures
        bar_start(0, bars, buckets) == 0,
        bar_start(bar, bars, buckets) < bar_start(bar + 1, bars, buckets) <= buckets,
        bar_end(bar, bars, buckets) == bar_start(bar + 1, bars, buckets),
        bar == bars - 1 ==> bar_end(bar, bars, buckets) == buckets,
{
    let len = buckets as int;
    let count = bars as int;
    let low = bar * len;
    let high = (bar + 1) * len;
    assert(0 <= low && high == low + len && high <= count * len && 0 * len == 0)
        by (nonlinear_arith)
        requires
            low == bar * len,
            high == (bar + 1) * len,
            0 <= bar,
            bar + 1 <= count,
            len > 0,
    ;
    lemma_fundamental_div_mod(low, count);
    lemma_fundamental_div_mod(high, count);
    let start = low / count;
    let end = high / count;
    assert(start < end) by (nonlinear_arith)
        requires
            low == count * start + low % count,
            high == count * end + high % count,
            low % count >= 0,
            high % count < count,
            high >= low + count,
            count > 0,
    ;
    assert(end <= len) by (nonlinear_arith)
        requires
            high == count * end + high % count,
            high % count >= 0,
            high <= count * len,
            count > 0,
    ;
    if bar == bars - 1 {
        assert(end == len) by (nonlinear_arith)
            requires
                high == count * end + high % count,
                0 <= high % count < count,
                high == count * len,
                count > 0,
        ;
    }
}

/// Bars start in their order.
proof fn lemma_bar_order(bar: int, later: int, bars: nat, buckets: nat)
    requires
        0 < bars <= buckets,
        0 <= bar <= later < bars,
        bars * buckets <= usize::MAX,
    ensures
        bar_start(bar, bars, buckets) <= bar_start(later, bars, buckets),
    decreases later - bar,
{
    if bar < later {
        lemma_bar_edges(bar, bars, buckets);
        lemma_bar_order(bar + 1, later, bars, buckets);
    }
}

/// No bucket is left out and none is shared: each belongs to one bar, and each bar ends
/// where the next one starts, where the counts are small enough for their product not to
/// saturate.
pub proof fn law_bars_cover_buckets(i: int, bars: nat, buckets: nat)
    requires
        0 < bars <= buckets,
        0 <= i < buckets,
        bars * buckets <= usize::MAX,
    ensures
        exists|bar: int| 0 <= bar < bars && in_bar(i, bar, bars, buckets),
        forall|bar: int, other: int|
            0 <= bar < bars && 0 <= other < bars && #[trigger] in_bar(i, bar, bars, buckets)
                && #[trigger] in_bar(i, other, bars, buckets) ==> bar == other,
        forall|bar: int|
            0 <= bar < bars ==> #[trigger] bar_end(bar, bars, buckets) == bar_start(
                bar + 1,
                bars,
                buckets,
            ),
        bar_start(0, bars, buckets) == 0,
        bar_end(bars - 1, bars, buckets) == buckets,
{
    lemma_bar_edges(bars - 1, bars, buckets);
    assert forall|bar: int| 0 <= bar < bars implies #[trigger] bar_end(bar, bars, buckets)
        == bar_start(bar + 1, bars, buckets) by {
        lemma_bar_edges(bar, bars, buckets);
    }
    assert forall|bar: int, other: int|
        0 <= bar < bars && 0 <= other < bars && #[trigger] in_bar(i, bar, bars, buckets)
            && #[trigger] in_bar(i, other, bars, buckets) implies bar == other by {
        lemma_bar_edges(bar, bars, buckets);
        lemma_bar_edges(other, bars, buckets);
        if bar < other {
            lemma_bar_order(bar + 1, other, bars, buckets);
        } else if other < bar {
            lemma_bar_order(other + 1, bar, bars, buckets);
        }
    }
    let len = buckets as int;
    let count = bars as int;
    let target = (i + 1) * count - 1;
    let bar = target / len;
    lemma_fundamental_div_mod(target, len);
    assert(0 <= target) by (nonlinear_arith)
        requires
            target == (i + 1) * count - 1,
            i >= 0,
            count >= 1,
    ;
    lemma_div_pos_is_pos(target, len);
    assert(bar < count) by (nonlinear_arith)
        requires
            target == len * bar + target % len,
            target % len >= 0,
            target == (i + 1) * count - 1,
            i + 1 <= len,
            len > 0,
            count > 0,
    ;
    assert(bar * len <= target < (bar + 1) * len) by (nonlinear_arith)
        requires
            target == len * bar + target % len,
            0 <= target % len < len,
    ;
    assert(0 <= bar * len && (bar + 1) * len <= usize::MAX) by (nonlinear_arith)
        requires
            0 <= bar,
            bar + 1 <= count,
            count * len <= usize::MAX,
            len > 0,
    ;
    let start = (bar * len) / count;
    lemma_fundamental_div_mod(bar * len, count);
    assert(start <= i) by (nonlinear_arith)
        requires
            bar * len == count * start + (bar * len) % count,
            (bar * len) % count >= 0,
            bar * len <= (i + 1) * count - 1,
            count > 0,
    ;
    let even = ((bar + 1) * len) / count;
    lemma_fundamental_div_mod((bar + 1) * len, count);
    assert(i < even) by (nonlinear_arith)
        requires
            (bar + 1) * len == count * even + ((bar + 1) * len) % count,
            ((bar + 1) * len) % count < count,
            (i + 1) * count <= (bar + 1) * len,
            count > 0,
    ;
    assert(in_bar(i, bar, bars, buckets));
}

/// The least samples of the buckets.
pub open spec fn minima(buckets: Seq<WaveformBucket>) -> Seq<Sample> {
    buckets.map_values(|bucket: WaveformBucket| bucket.minimum)
}

/// The greatest samples of the buckets.
pub open spec fn maxima(buckets: Seq<WaveformBucket>) -> Seq<Sample> {
    buckets.map_values(|bucket: WaveformBucket| bucket.maximum)
}

/// The outline of the buckets from `start` on and before `end`.
fn outline_of(buckets: &Vec<WaveformBucket>, start: usize, end: usize) -> (bar: WaveformBucket)
    requires
        end <= buckets@.len(),
    ensures
        is_least(bar.minimum, minima(buckets@), |i: int| start <= i < end),
        is_greatest(bar.maximum, maxima(buckets@), |i: int| start <= i < end),
{
    let mut bar = WaveformBucket { minimum: Sample::zero(), maximum: Sample::zero() };
    let mut index: usize = 0;
    let ghost member = |i: int| start <= i < end;
    while index < end
        invariant
            index <= end <= buckets@.len(),
            member == (|i: int| start <= i < end),
            is_least(bar.minimum, minima(buckets@).take(index as int), member),
            is_greatest(bar.maximum, maxima(buckets@).take(index as int), member),
        decreases end - index,
    {
        proof {
            lemma_take_least(bar.minimum, minima(buckets@), index as int, member);
            lemma_take_greatest(bar.maximum, maxima(buckets@), index as int, member);
        }
        if index >= start {
            bar = WaveformBucket {
                minimum: bar.minimum.min(buckets[index].minimum),
                maximum: bar.maximum.max(buckets[index].maximum),
            };
        }
        index = index + 1;
    }
    proof {
        let least = minima(buckets@);
        let greatest = maxima(buckets@);
        assert forall|i: int| 0 <= i < end implies #[trigger] least[i] == least.take(
            end as int,
        )[i] by {}
        assert forall|i: int| 0 <= i < end implies #[trigger] greatest[i] == greatest.take(
            end as int,
        )[i] by {}
    }
    bar
}

/// The bars in which an outline is drawn where there is room for `room` of them: the
/// buckets are shared out evenly, and a bar shows the extremes of its buckets.
pub fn waveform_bars(buckets: &Vec<WaveformBucket>, room: usize) -> (bars: Vec<WaveformBucket>)
    ensures
        buckets@.len() == 0 ==> bars@.len() == 0,
        buckets@.len() > 0 ==> bars@.len() == bar_count(room as nat, buckets@.len()),
        forall|bar: int|
            #![trigger bars@[bar]]
            0 <= bar < bars@.len() ==> {
                &&& is_least(
                    bars@[bar].minimum,
                    minima(buckets@),
                    |i: int| in_bar(i, bar, bars@.len(), buckets@.len()),
                )
                &&& is_greatest(
                    bars@[bar].maximum,
                    maxima(buckets@),
                    |i: int| in_bar(i, bar, bars@.len(), buckets@.len()),
                )
            },
        forall|bar: int, i: int|
            #![trigger bars@[bar], buckets@[i]]
            0 <= bar < bars@.len() && 0 <= i < buckets@.len() && bars@.len() * buckets@.len()
                <= usize::MAX && bar * buckets@.len() < (i + 1) * bars@.len() <= (bar + 1)
                * buckets@.len() ==> {
                &&& buckets@[i].maximum.bits <= 0x7F80_0000 ==> buckets@[i].maximum.bits
                    <= bars@[bar].maximum.bits
                &&& 0x8000_0000 < buckets@[i].minimum.bits <= 0xFF80_0000
                    ==> buckets@[i].minimum.bits <= bars@[bar].minimum.bits
            },
{
    let len: usize = buckets.len();
    let mut bars: Vec<WaveformBucket> = Vec::new();
    if len == 0 {
        return bars;
    }
    let count: usize = if room < 1 {
        1
    } else if room > len {
        len
    } else {
        room
    };
    let mut bar: usize = 0;
    while bar < count
        invariant
            len == buckets@.len(),
            0 < count <= len,
            bar <= count,
            bars@.len() == bar,
            forall|b: int|
                #![trigger bars@[b]]
                0 <= b < bar ==> {
                    &&& is_least(
                        bars@[b].minimum,
                        minima(buckets@),
                        |i: int| in_bar(i, b, count as nat, len as nat),
                    )
                    &&& is_greatest(
                        bars@[b].maximum,
                        maxima(buckets@),
                        |i: int| in_bar(i, b, count as nat, len as nat),
                    )
                },
        decreases count - bar,
    {
        let start: usize = saturating_product(bar, len) / count;
        let even: usize = saturating_product(bar + 1, len) / count;
        let end: usize = if start >= len || even >= len {
            len
        } else if even < start + 1 {
            start + 1
        } else {
            even
        };
        proof {
            assert(end == bar_end(bar as int, count as nat, len as nat));
            let by_bounds = |i: int| start <= i < end;
            let by_bar = |i: int| in_bar(i, bar as int, count as nat, len as nat);
            assert(by_bounds =~= by_bar);
        }
        bars.push(outline_of(buckets, start, end));
        bar = bar + 1;
    }
    proof {
        assert forall|bar: int, i: int|
            #![trigger bars@[bar], buckets@[i]]
            0 <= bar < bars@.len() && 0 <= i < buckets@.len() && bars@.len() * buckets@.len()
                <= usize::MAX && bar * buckets@.len() < (i + 1) * bars@.len() <= (bar + 1)
                * buckets@.len() implies {
            &&& buckets@[i].maximum.bits <= 0x7F80_0000 ==> buckets@[i].maximum.bits
                <= bars@[bar].maximum.bits
            &&& 0x8000_0000 < buckets@[i].minimum.bits <= 0xFF80_0000 ==> buckets@[i].minimum.bits
                <= bars@[bar].minimum.bits
        } by {
            law_buckets_are_shared_out_evenly(i, bar, bars@.len(), buckets@.len());
            assert(in_bar(i, bar, count as nat, len as nat));
            let member = |i: int| in_bar(i, bar, count as nat, len as nat);
            assert(member(i));
            assert(maxima(buckets@)[i] == buckets@[i].maximum);
            assert(minima(buckets@)[i] == buckets@[i].minimum);
            if buckets@[i].maximum.bits <= 0x7F80_0000 {
                assert(maxima(buckets@)[i].is_number());
            }
            if 0x8000_0000 < buckets@[i].minimum.bits <= 0xFF80_0000 {
                assert(minima(buckets@)[i].is_number());
            }
        }
    }
    bars
}

/// Frames are spread evenly: of a sound of `n` frames in `c` buckets, which are as many as
/// the frames but never more than 1536, the bucket `b` holds exactly the samples of the
/// frames `f` with `b * n <= f * c < (b + 1) * n`. A product beyond the machine's word
/// counts as the greatest word.
pub proof fn law_frames_are_spread_evenly(
    index: int,
    frame: int,
    bucket: int,
    channel_count: nat,
    frame_count: nat,
)
    requires
        channel_count > 0,
        frame_count > 0,
        0 <= frame,
        frame * channel_count <= index < (frame + 1) * channel_count,
    ensures
        ({
            let n = frame_count as int;
            let c = if n <= 1536 {
                n
            } else {
                1536
            };
            let product = if frame * c <= usize::MAX {
                frame * c
            } else {
                usize::MAX as int
            };
            &&& bucket_count(frame_count) == c
            &&& bucket_of(index, channel_count, frame_count) == bucket <==> bucket * n <= product
                < (bucket + 1) * n
            &&& frame < n && frame * c <= usize::MAX ==> 0 <= bucket_of(
                index,
                channel_count,
                frame_count,
            ) < c
            &&& frame >= n && frame * c <= usize::MAX ==> bucket_of(
                index,
                channel_count,
                frame_count,
            ) >= c
        }),
{
    let n = frame_count as int;
    let c = if n <= 1536 {
        n
    } else {
        1536
    };
    let product = if frame * c <= usize::MAX {
        frame * c
    } else {
        usize::MAX as int
    };
    let channels = channel_count as int;
    let rest = index - frame * channels;
    assert(index == frame * channels + rest && 0 <= rest < channels) by (nonlinear_arith)
        requires
            rest == index - frame * channels,
            frame * channels <= index,
            index < (frame + 1) * channels,
    ;
    lemma_fundamental_div_mod_converse(index, channels, frame, rest);
    assert(index / channels == frame);
    let b = product / n;
    lemma_fundamental_div_mod(product, n);
    assert(b * n <= product < (b + 1) * n) by (nonlinear_arith)
        requires
            product == n * b + product % n,
            0 <= product % n < n,
    ;
    if bucket * n <= product < (bucket + 1) * n {
        assert(bucket == b) by (nonlinear_arith)
            requires
                bucket * n <= product,
                product < (bucket + 1) * n,
                b * n <= product,
                product < (b + 1) * n,
                n > 0,
        ;
    }
    assert(0 <= frame * c) by (nonlinear_arith)
        requires
            0 <= frame,
            0 < c,
    ;
    if frame < n && frame * c <= usize::MAX {
        assert(0 <= b < c) by (nonlinear_arith)
            requires
                b * n <= frame * c,
                frame * c < (b + 1) * n,
                0 <= frame * c,
                frame < n,
                n > 0,
                c > 0,
        ;
    }
    if frame >= n && frame * c <= usize::MAX {
        assert(b >= c) by (nonlinear_arith)
            requires
                frame * c < (b + 1) * n,
                frame >= n,
                n > 0,
                c > 0,
        ;
    }
}

/// A bucket takes consecutive frames, and as many as any other, or one more or less: two
/// frames that share a bucket are less than `n / c` rounded up apart, and `n / c` rounded
/// down frames from the first of a bucket on share it.
pub proof fn law_buckets_are_alike(
    first: int,
    frame: int,
    later: int,
    bucket: int,
    frame_count: nat,
)
    requires
        0 <= first <= frame <= later < frame_count,
        first * bucket_count(frame_count) <= usize::MAX,
        frame * bucket_count(frame_count) <= usize::MAX,
        later * bucket_count(frame_count) <= usize::MAX,
        bucket_of(first, 1, frame_count) == bucket,
    ensures
        ({
            let n = frame_count as int;
            let c = if n <= 1536 {
                n
            } else {
                1536
            };
            &&& bucket_of(later, 1, frame_count) == bucket ==> bucket_of(frame, 1, frame_count)
                == bucket
            &&& bucket_of(later, 1, frame_count) == bucket ==> (later - first) * c < n
            &&& (first == 0 || bucket_of(first - 1, 1, frame_count) < bucket) && (later - first
                + 1) * c <= n ==> bucket_of(later, 1, frame_count) == bucket
        }),
{
    let n = frame_count as int;
    let c = bucket_count(frame_count) as int;
    assert(first * 1 == first && (first + 1) * 1 == first + 1);
    law_frames_are_spread_evenly(first, first, bucket, 1, frame_count);
    law_frames_are_spread_evenly(frame, frame, bucket, 1, frame_count);
    law_frames_are_spread_evenly(later, later, bucket, 1, frame_count);
    assert(first * c <= frame * c <= later * c) by (nonlinear_arith)
        requires
            first <= frame <= later,
            c > 0,
    ;
    assert((later - first) * c == later * c - first * c) by (nonlinear_arith);
    assert((bucket + 1) * n == bucket * n + n) by (nonlinear_arith);
    assert((later - first + 1) * c == later * c - first * c + c) by (nonlinear_arith);
    if (first == 0 || bucket_of(first - 1, 1, frame_count) < bucket) && (later - first + 1) * c
        <= n {
        if first > 0 {
            let b = bucket_of(first - 1, 1, frame_count);
            assert((first - 1) * c == first * c - c) by (nonlinear_arith);
            law_frames_are_spread_evenly(first - 1, first - 1, b, 1, frame_count);
            assert((b + 1) * n <= bucket * n) by (nonlinear_arith)
                requires
                    b + 1 <= bucket,
                    n > 0,
            ;
        } else {
            assert(0 * c == 0);
            assert(bucket == 0) by (nonlinear_arith)
                requires
                    bucket * n <= 0,
                    0 < (bucket + 1) * n,
                    n > 0,
            ;
            assert(0 * n == 0);
        }
    }
}

/// A bucket bounds every sample of its frames, and reaches no further than they do. Of
/// numbers above zero the greater has the greater pattern, and of those below zero the
/// lesser.
pub proof fn law_buckets_bound_their_samples(
    buckets: Seq<WaveformBucket>,
    samples: Seq<Sample>,
    channel_count: nat,
    frame_count: nat,
    bucket: int,
)
    requires
        is_waveform(buckets, samples, channel_count, frame_count),
        0 <= bucket < buckets.len(),
    ensures
        buckets.len() == if frame_count <= 1536 {
            frame_count
        } else {
            1536
        },
        forall|i: int|
            0 <= i < samples.len() && bucket_of(i, channel_count, frame_count) == bucket && (
            #[trigger] samples[i]).bits <= 0x7F80_0000 ==> samples[i].bits
                <= buckets[bucket].maximum.bits,
        forall|i: int|
            0 <= i < samples.len() && bucket_of(i, channel_count, frame_count) == bucket
                && 0x8000_0000 < (#[trigger] samples[i]).bits <= 0xFF80_0000 ==> samples[i].bits
                <= buckets[bucket].minimum.bits,
        buckets[bucket].maximum.bits == 0 || exists|i: int|
            0 <= i < samples.len() && #[trigger] samples[i] == buckets[bucket].maximum
                && bucket_of(i, channel_count, frame_count) == bucket,
        buckets[bucket].minimum.bits == 0 || exists|i: int|
            0 <= i < samples.len() && #[trigger] samples[i] == buckets[bucket].minimum
                && bucket_of(i, channel_count, frame_count) == bucket,
        buckets[bucket].maximum.bits <= 0x7F80_0000,
        buckets[bucket].minimum.bits == 0 || 0x8000_0000 < buckets[bucket].minimum.bits
            <= 0xFF80_0000,
{
    let member = |i: int| bucket_of(i, channel_count, frame_count) == bucket;
    assert(is_outline(buckets[bucket], samples, member));
    assert forall|i: int|
        0 <= i < samples.len() && bucket_of(i, channel_count, frame_count) == bucket && (
        #[trigger] samples[i]).bits <= 0x7F80_0000 implies samples[i].bits
        <= buckets[bucket].maximum.bits by {
        assert(member(i));
        assert(samples[i].is_number());
    }
    assert forall|i: int|
        0 <= i < samples.len() && bucket_of(i, channel_count, frame_count) == bucket
            && 0x8000_0000 < (#[trigger] samples[i]).bits <= 0xFF80_0000 implies samples[i].bits
        <= buckets[bucket].minimum.bits by {
        assert(member(i));
        assert(samples[i].is_number());
    }
}

/// Buckets are shared out evenly among the bars: the bar `b` of `c` stands for exactly the
/// buckets `i` of `n` with `b * n < (i + 1) * c <= (b + 1) * n`.
pub proof fn law_buckets_are_shared_out_evenly(i: int, bar: int, bars: nat, buckets: nat)
    requires
        0 < bars <= buckets,
        0 <= bar < bars,
        bars * buckets <= usize::MAX,
    ensures
        in_bar(i, bar, bars, buckets) <==> bar * buckets < (i + 1) * bars <= (bar + 1) * buckets,
{
    let len = buckets as int;
    let count = bars as int;
    lemma_bar_edges(bar, bars, buckets);
    let low = bar * len;
    let high = (bar + 1) * len;
    assert(0 <= low && high <= count * len) by (nonlinear_arith)
        requires
            low == bar * len,
            high == (bar + 1) * len,
            0 <= bar,
            bar + 1 <= count,
            len > 0,
    ;
    assert(high == low + len) by (nonlinear_arith)
        requires
            low == bar * len,
            high == (bar + 1) * len,
    ;
    lemma_fundamental_div_mod(low, count);
    lemma_fundamental_div_mod(high, count);
    let start = low / count;
    let end = high / count;
    assert(start <= i <==> low < (i + 1) * count) by (nonlinear_arith)
        requires
            low == count * start + low % count,
            0 <= low % count < count,
            count > 0,
    ;
    assert(i < end <==> (i + 1) * count <= high) by (nonlinear_arith)
        requires
            high == count * end + high % count,
            0 <= high % count < count,
            count > 0,
    ;
}

/// There are as many bars as there is room for, but never none, nor more than buckets.
pub proof fn law_bars_fit_the_room(room: nat, buckets: nat)
    requires
        buckets > 0,
    ensures
        1 <= bar_count(room, buckets) <= buckets,
        room >= 1 ==> bar_count(room, buckets) <= room,
        bar_count(room, buckets) < buckets ==> bar_count(room, buckets) >= room,
{
}

/// What bars are made from: the least and the greatest sample of each bucket, in order.
pub proof fn law_bars_are_made_from_extremes(buckets: Seq<WaveformBucket>, i: int)
    requires
        0 <= i < buckets.len(),
    ensures
        minima(buckets).len() == buckets.len(),
        maxima(buckets).len() == buckets.len(),
        minima(buckets)[i] == buckets[i].minimum,
        maxima(buckets)[i] == buckets[i].maximum,
{
}

/// A bar starts at its share of the buckets, rounded down, where the product of its place and
/// their number counts as the greatest word at most. It reaches to where the next one starts,
/// but always over one bucket, and never behind the last.
pub proof fn law_bars_start_at_their_share(bar: int, bars: nat, buckets: nat)
    requires
        0 < bars,
        0 <= bar,
    ensures
        ({
            let start = bar_start(bar, bars, buckets);
            let next = bar_start(bar + 1, bars, buckets);
            let end = bar_end(bar, bars, buckets);
            let product = if bar * buckets <= usize::MAX {
                bar * buckets
            } else {
                usize::MAX as int
            };
            &&& start * bars <= product < (start + 1) * bars
            &&& end <= buckets
            &&& start < next <= buckets ==> end == next
            &&& next <= start < buckets ==> end == start + 1
            &&& next > buckets && start < buckets ==> end == buckets
        }),
{
    let product = if bar * buckets <= usize::MAX {
        bar * buckets
    } else {
        usize::MAX as int
    };
    let count = bars as int;
    lemma_fundamental_div_mod(product, count);
    let start = product / count;
    assert(start * count <= product < (start + 1) * count) by (nonlinear_arith)
        requires
            product == count * start + product % count,
            0 <= product % count < count,
    ;
}

} // verus!
