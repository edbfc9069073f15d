//! Silence: where a sound falls below the threshold for whole windows of time, and
//! what pauses that makes.

use vstd::arithmetic::div_mod::lemma_fundamental_div_mod;
use vstd::prelude::*;

use crate::duration::{
    law_each_count_takes_time, law_nothing_lasts_no_time, law_time_follows_counts,
    nanos_of_quotient, Duration, MAX_NANOS,
};
use crate::level::Level;

verus! {

/// The length of one window in milliseconds.
pub const SILENCE_WINDOW_MILLIS: u64 = 20;

/// The frames in one window: at least one.
pub open spec fn window_frames(sample_rate: nat) -> nat {
    let frames = sample_rate * SILENCE_WINDOW_MILLIS as nat / 1_000;
    if frames < 1 {
        1
    } else {
        frames
    }
}

/// The windows in `frame_count` frames, the last of which may be short.
pub open spec fn window_count(frame_count: nat, sample_rate: nat) -> nat {
    let frames = window_frames(sample_rate);
    if frame_count % frames == 0 {
        frame_count / frames
    } else {
        frame_count / frames + 1
    }
}

/// The frame at which the window at `window` starts, or the end of the sound.
pub open spec fn window_start(window: nat, frame_count: nat, sample_rate: nat) -> nat {
    let start = window * window_frames(sample_rate);
    if start <= frame_count {
        start
    } else {
        frame_count
    }
}

/// A stretch of silence.
#[derive(Clone, Copy, Debug, PartialEq, Eq, Structural)]
pub struct SilenceRange {
    pub start: Duration,
    pub end: Duration,
}

impl SilenceRange {
    /// The nanoseconds between the start and the end.
    pub open spec fn nanos(self) -> nat {
        if self.start@ <= self.end@ {
            (self.end@ - self.start@) as nat
        } else {
            0
        }
    }

    /// How long the silence lasts.
    pub fn duration(self) -> (span: Duration)
        ensures
            span@ == self.nanos(),
    {
        self.end.saturating_sub(self.start)
    }
}

/// The frames in one window.
pub fn frames_per_window(sample_rate: u32) -> (frames: usize)
    ensures
        frames == window_frames(sample_rate as nat),
        frames > 0,
{
    let frames: u64 = sample_rate as u64 * SILENCE_WINDOW_MILLIS / 1_000;
    if frames < 1 {
        1
    } else {
        frames as usize
    }
}

/// What a window's position in `frame_count` frames comes to.
proof fn lemma_windows(window: nat, frame_count: nat, sample_rate: nat)
    ensures
        window < window_count(frame_count, sample_rate) <==> window * window_frames(sample_rate)
            < frame_count,
        window <= frame_count / window_frames(sample_rate) <==> window * window_frames(sample_rate)
            <= frame_count,
{
    let frames = window_frames(sample_rate) as int;
    let quotient = frame_count as int / frames;
    let rest = frame_count as int % frames;
    lemma_fundamental_div_mod(frame_count as int, frames);
    assert(window <= quotient <==> window * frames <= frame_count) by (nonlinear_arith)
        requires
            frame_count == frames * quotient + rest,
            0 <= rest < frames,
    ;
    assert(rest == 0 ==> (window < quotient <==> window * frames < frame_count))
        by (nonlinear_arith)
        requires
            frame_count == frames * quotient + rest,
            0 <= rest < frames,
    ;
    assert(rest > 0 ==> (window < quotient + 1 <==> window * frames < frame_count))
        by (nonlinear_arith)
        requires
            frame_count == frames * quotient + rest,
            0 <= rest < frames,
    ;
}

/// The frame at which a window starts, or the end of the sound.
fn start_of_window(window: usize, frame_count: usize, sample_rate: u32) -> (start: usize)
    ensures
        start == window_start(window as nat, frame_count as nat, sample_rate as nat),
        start <= frame_count,
{
    let frames: usize = frames_per_window(sample_rate);
    proof {
        lemma_windows(window as nat, frame_count as nat, sample_rate as nat);
    }
    if window <= frame_count / frames {
        window * frames
    } else {
        frame_count
    }
}

/// The number of windows in `frame_count` frames.
fn count_windows(frame_count: usize, sample_rate: u32) -> (count: usize)
    ensures
        count == window_count(frame_count as nat, sample_rate as nat),
{
    let frames: usize = frames_per_window(sample_rate);
    proof {
        lemma_fundamental_div_mod(frame_count as int, frames as int);
        let quotient = frame_count as int / frames as int;
        assert(frame_count % frames > 0 ==> quotient < frame_count) by (nonlinear_arith)
            requires
                frame_count == frames * quotient + frame_count as int % frames as int,
                frames > 0,
        ;
    }
    if frame_count % frames == 0 {
        frame_count / frames
    } else {
        frame_count / frames + 1
    }
}

/// The samples of each window, from the first one up to the one behind the last:
/// those are the stretches whose loudness decides which windows are silent.
pub fn silence_windows(sample_count: usize, sample_rate: u32, channel_count: usize) -> (windows:
    Vec<(usize, usize)>)
    requires
        channel_count > 0,
    ensures
        windows@.len() == window_count(
            sample_count as nat / channel_count as nat,
            sample_rate as nat,
        ),
        forall|w: int|
            #![trigger windows@[w]]
            0 <= w < windows@.len() ==> {
                let frame_count = sample_count as nat / channel_count as nat;
                let rate = sample_rate as nat;
                &&& windows@[w].0 == window_start(w as nat, frame_count, rate) * channel_count
                &&& windows@[w].1 == window_start((w + 1) as nat, frame_count, rate)
                    * channel_count
                &&& windows@[w].0 <= windows@[w].1 <= sample_count
            },
{
    let frame_count: usize = sample_count / channel_count;
    let count: usize = count_windows(frame_count, sample_rate);
    let mut windows: Vec<(usize, usize)> = Vec::new();
    let mut window: usize = 0;
    while window < count
        invariant
            channel_count > 0,
            frame_count == sample_count as nat / channel_count as nat,
            count == window_count(frame_count as nat, sample_rate as nat),
            window <= count,
            windows@.len() == window,
            forall|w: int|
                #![trigger windows@[w]]
                0 <= w < window ==> {
                    let rate = sample_rate as nat;
                    &&& windows@[w].0 == window_start(w as nat, frame_count as nat, rate)
                        * channel_count
                    &&& windows@[w].1 == window_start((w + 1) as nat, frame_count as nat, rate)
                        * channel_count
                    &&& windows@[w].0 <= windows@[w].1 <= sample_count
                },
        decreases count - window,
    {
        let start: usize = start_of_window(window, frame_count, sample_rate);
        let end: usize = start_of_window(window + 1, frame_count, sample_rate);
        proof {
            lemma_fundamental_div_mod(sample_count as int, channel_count as int);
            let frames = window_frames(sample_rate as nat);
            assert(window * frames <= (window + 1) * frames) by (nonlinear_arith);
            assert(start * channel_count <= end * channel_count <= sample_count)
                by (nonlinear_arith)
                requires
                    start <= end <= frame_count,
                    sample_count == channel_count * frame_count + sample_count as int
                        % channel_count as int,
                    sample_count as int % channel_count as int >= 0,
            ;
        }
        windows.push((start * channel_count, end * channel_count));
        window = window + 1;
    }
    windows
}

/// Which windows are silent, given the level of each: those below `threshold`. A window
/// with no level has level zero.
pub open spec fn are_below(levels: Seq<Option<Level>>, threshold: Level) -> Seq<bool> {
    levels.map_values(
        |level: Option<Level>|
            match level {
                Some(level) => level.is_less(threshold),
                None => (Level { bits: 0 }).is_less(threshold),
            },
    )
}

/// Which windows are silent, given the level of each.
pub fn silent_windows(levels: &Vec<Option<Level>>, threshold: Level) -> (silent: Vec<bool>)
    ensures
        silent@ == are_below(levels@, threshold),
{
    let mut silent: Vec<bool> = Vec::new();
    let mut window: usize = 0;
    while window < levels.len()
        invariant
            window <= levels@.len(),
            silent@ == are_below(levels@, threshold).take(window as int),
        decreases levels@.len() - window,
    {
        let level = match levels[window] {
            Some(level) => level,
            None => Level { bits: 0 },
        };
        silent.push(level.is_below(threshold));
        window = window + 1;
        assert(silent@ =~= are_below(levels@, threshold).take(window as int));
    }
    assert(silent@ =~= are_below(levels@, threshold));
    silent
}

/// The runs of silent windows, in order: each by its first window and the one behind
/// its last.
pub open spec fn silent_runs(silent: Seq<bool>) -> Seq<(int, int)>
    decreases silent.len(),
{
    if silent.len() == 0 {
        Seq::empty()
    } else {
        let last = silent.len() - 1;
        let before = silent_runs(silent.drop_last());
        if !silent[last] {
            before
        } else if last > 0 && silent[last - 1] {
            before.drop_last().push((before.last().0, last + 1))
        } else {
            before.push((last, last + 1))
        }
    }
}

/// Whether `[start, end)` is a stretch of silent windows with none before or behind it.
pub open spec fn is_maximal_run(silent: Seq<bool>, start: int, end: int) -> bool {
    &&& 0 <= start < end <= silent.len()
    &&& forall|w: int| start <= w < end ==> #[trigger] silent[w]
    &&& start > 0 ==> !silent[start - 1]
    &&& end < silent.len() ==> !silent[end]
}

/// The runs are the maximal stretches of silent windows, in order; two of them never
/// touch, and every silent window lies in one.
pub proof fn law_silent_runs(silent: Seq<bool>)
    ensures
        forall|i: int|
            0 <= i < silent_runs(silent).len() ==> is_maximal_run(
                silent,
                (#[trigger] silent_runs(silent)[i]).0,
                silent_runs(silent)[i].1,
            ),
        forall|i: int, j: int|
            0 <= i < j < silent_runs(silent).len() ==> (#[trigger] silent_runs(silent)[i]).1 < (
            #[trigger] silent_runs(silent)[j]).0,
        forall|w: int|
            0 <= w < silent.len() && #[trigger] silent[w] ==> exists|i: int|
                0 <= i < silent_runs(silent).len() && (#[trigger] silent_runs(silent)[i]).0 <= w
                    < silent_runs(silent)[i].1,
    decreases silent.len(),
{
    if silent.len() > 0 {
        let last = silent.len() - 1;
        let shorter = silent.drop_last();
        let before = silent_runs(shorter);
        let runs = silent_runs(silent);
        law_silent_runs(shorter);
        assert forall|w: int| 0 <= w < last implies shorter[w] == #[trigger] silent[w] by {}
        if silent[last] {
            if last > 0 && silent[last - 1] {
                assert(shorter[last - 1]);
                let i = choose|i: int|
                    0 <= i < before.len() && (#[trigger] before[i]).0 <= last - 1 < before[i].1;
                assert(before[i].1 == last);
                if i < before.len() - 1 {
                    assert(before[i].1 < before[before.len() - 1].0);
                }
                assert(i == before.len() - 1);
                assert(runs.len() == before.len());
            } else {
                assert(runs.len() == before.len() + 1);
            }
            assert(runs[runs.len() - 1].1 == last + 1);
        }
        assert forall|i: int| 0 <= i < runs.len() implies is_maximal_run(
            silent,
            (#[trigger] runs[i]).0,
            runs[i].1,
        ) by {
            if !silent[last] || i < runs.len() - 1 {
                assert(runs[i] == before[i]);
                if runs[i].1 == last && silent[last] {
                    assert(shorter[last - 1]);
                    assert(i == before.len() - 1);
                }
            }
        }
        assert forall|w: int| 0 <= w < silent.len() && #[trigger] silent[w] implies exists|i: int|
            0 <= i < runs.len() && (#[trigger] runs[i]).0 <= w < runs[i].1 by {
            if w < last {
                assert(shorter[w]);
                let i = choose|i: int|
                    0 <= i < before.len() && (#[trigger] before[i]).0 <= w < before[i].1;
                assert(runs[i].0 <= w < runs[i].1);
            } else {
                assert(runs[runs.len() - 1].0 <= w < runs[runs.len() - 1].1);
            }
        }
    }
}

/// Whether `range` is the time that the run takes up in `frame_count` frames.
pub open spec fn is_range_of_run(
    range: SilenceRange,
    run: (int, int),
    frame_count: nat,
    sample_rate: nat,
) -> bool {
    &&& range.start@ == nanos_of_quotient(
        window_start(run.0 as nat, frame_count, sample_rate),
        sample_rate,
    )
    &&& range.end@ == nanos_of_quotient(
        window_start(run.1 as nat, frame_count, sample_rate),
        sample_rate,
    )
}

/// Whether `ranges` are the times of the runs of silent windows, in order.
pub open spec fn are_silence_ranges(
    ranges: Seq<SilenceRange>,
    silent_windows: Seq<bool>,
    frame_count: nat,
    sample_rate: nat,
) -> bool {
    &&& ranges.len() == silent_runs(silent_windows).len()
    &&& forall|i: int|
        #![trigger ranges[i]]
        0 <= i < ranges.len() ==> is_range_of_run(
            ranges[i],
            silent_runs(silent_windows)[i],
            frame_count,
            sample_rate,
        )
}

/// Joins silent windows into ranges of time. Every run of silent windows is a range of
/// its own, however short it is and however short the sound before it. The second
/// part of the result marks the windows that are not silent.
pub fn segment_silence(silent_windows: &Vec<bool>, frame_count: usize, sample_rate: u32) -> (result:
    (Vec<SilenceRange>, Vec<bool>))
    requires
        sample_rate > 0,
        frame_count < 0xFFFF_FFFF_FFFF_FC00 || sample_rate > 1,
    ensures
        are_silence_ranges(
            result.0@,
            silent_windows@,
            frame_count as nat,
            sample_rate as nat,
        ),
        result.1@ == silent_windows@.map_values(|silent: bool| !silent),
{
    let ghost silent = silent_windows@;
    let count: usize = silent_windows.len();
    let mut ranges: Vec<SilenceRange> = Vec::new();
    let mut active: Vec<bool> = Vec::new();
    let mut window: usize = 0;
    while window < count
        invariant
            count == silent.len(),
            silent == silent_windows@,
            sample_rate > 0,
            frame_count < 0xFFFF_FFFF_FFFF_FC00 || sample_rate > 1,
            window <= count,
            0 < window < count && silent[window as int] ==> !silent[window - 1],
            active@ == silent.take(window as int).map_values(|silent: bool| !silent),
            are_silence_ranges(
                ranges@,
                silent.take(window as int),
                frame_count as nat,
                sample_rate as nat,
            ),
        decreases count - window,
    {
        if !silent_windows[window] {
            proof {
                let longer = silent.take(window + 1);
                assert(longer.drop_last() =~= silent.take(window as int));
            }
            active.push(true);
            window = window + 1;
            assert(active@ =~= silent.take(window as int).map_values(|silent: bool| !silent));
            continue;
        }
        let start: usize = window;
        let ghost before = silent_runs(silent.take(start as int));
        while window < count && silent_windows[window]
            invariant
                count == silent.len(),
                silent == silent_windows@,
                start <= window <= count,
                start < count,
                silent[start as int],
                start > 0 ==> !silent[start - 1],
                forall|w: int| start <= w < window ==> #[trigger] silent[w],
                before == silent_runs(silent.take(start as int)),
                window == start ==> silent_runs(silent.take(window as int)) == before,
                window > start ==> silent_runs(silent.take(window as int)) == before.push(
                    (start as int, window as int),
                ),
                active@ == silent.take(window as int).map_values(|silent: bool| !silent),
            decreases count - window,
        {
            proof {
                let longer = silent.take(window + 1);
                assert(longer.drop_last() =~= silent.take(window as int));
                if window > start {
                    assert(longer[window - 1] == silent[window - 1]);
                    assert(before.push((start as int, window as int)).drop_last() =~= before);
                } else if window > 0 {
                    assert(longer[window - 1] == silent[window - 1]);
                }
            }
            active.push(false);
            window = window + 1;
            assert(active@ =~= silent.take(window as int).map_values(|silent: bool| !silent));
        }
        let start_frame: usize = start_of_window(start, frame_count, sample_rate);
        let end_frame: usize = start_of_window(window, frame_count, sample_rate);
        ranges.push(
            SilenceRange {
                start: Duration::from_quotient(start_frame as u64, sample_rate as u64),
                end: Duration::from_quotient(end_frame as u64, sample_rate as u64),
            },
        );
    }
    assert(silent.take(window as int) =~= silent);
    (ranges, active)
}

/// What the silences of a sound come to.
#[derive(Clone, Copy, Debug, PartialEq, Eq, Structural)]
pub struct SilenceSummary {
    /// The silence at the start.
    pub leading: Duration,
    /// The silence at the end.
    pub trailing: Duration,
    /// The number of silences that touch neither the start nor the end.
    pub pause_count: usize,
    /// How long those silences last together.
    pub pause_total: Duration,
    /// How long the longest of them lasts.
    pub pause_longest: Duration,
}

/// Whether a silence touches neither the start of the sound nor its end.
pub open spec fn is_internal(range: SilenceRange, total: nat) -> bool {
    range.start@ != 0 && range.end@ < total
}

/// The silences that touch neither the start of the sound nor its end.
pub open spec fn internal_pauses(ranges: Seq<SilenceRange>, total: nat) -> Seq<SilenceRange> {
    ranges.filter(|range: SilenceRange| is_internal(range, total))
}

/// The nanoseconds of all `ranges` together.
pub open spec fn sum_of_nanos(ranges: Seq<SilenceRange>) -> nat
    decreases ranges.len(),
{
    if ranges.len() == 0 {
        0
    } else {
        sum_of_nanos(ranges.drop_last()) + ranges.last().nanos()
    }
}

/// The nanoseconds of the longest of `ranges`.
pub open spec fn longest_nanos(ranges: Seq<SilenceRange>) -> nat
    decreases ranges.len(),
{
    if ranges.len() == 0 {
        0
    } else {
        let before = longest_nanos(ranges.drop_last());
        if before < ranges.last().nanos() {
            ranges.last().nanos()
        } else {
            before
        }
    }
}

/// Whether `summary` sums up the silences of a sound that lasts `total` nanoseconds.
pub open spec fn is_silence_summary(
    summary: SilenceSummary,
    ranges: Seq<SilenceRange>,
    total: nat,
) -> bool {
    let pauses = internal_pauses(ranges, total);
    &&& summary.leading@ == if ranges.len() > 0 && ranges[0].start@ == 0 {
        ranges[0].nanos()
    } else {
        0
    }
    &&& summary.trailing@ == if ranges.len() > 0 && ranges.last().end@ >= total {
        ranges.last().nanos()
    } else {
        0
    }
    &&& summary.pause_count == pauses.len()
    &&& summary.pause_total@ == if sum_of_nanos(pauses) <= MAX_NANOS {
        sum_of_nanos(pauses)
    } else {
        MAX_NANOS as nat
    }
    &&& summary.pause_longest@ == longest_nanos(pauses)
}

/// Sums up the silences of a sound that lasts `total`: the first one where it starts at
/// zero, the last one where it reaches the end, and the pauses in between.
pub fn summarize_silence(ranges: &Vec<SilenceRange>, total: Duration) -> (summary: SilenceSummary)
    ensures
        is_silence_summary(summary, ranges@, total@),
{
    let count: usize = ranges.len();
    let mut leading = Duration::zero();
    let mut trailing = Duration::zero();
    if count > 0 {
        let first = ranges[0];
        if first.start.is_zero() {
            leading = first.duration();
        }
        let last = ranges[count - 1];
        if !last.end.is_shorter_than(&total) {
            trailing = last.duration();
        }
    }
    let mut pause_count: usize = 0;
    let mut pause_total = Duration::zero();
    let mut pause_longest = Duration::zero();
    let mut index: usize = 0;
    proof {
        assert(ranges@.take(0) =~= Seq::<SilenceRange>::empty());
        reveal_with_fuel(Seq::filter, 1);
    }
    while index < count
        invariant
            count == ranges@.len(),
            index <= count,
            pause_count <= index,
            pause_count == internal_pauses(ranges@.take(index as int), total@).len(),
            pause_total@ == if sum_of_nanos(internal_pauses(ranges@.take(index as int), total@))
                <= MAX_NANOS {
                sum_of_nanos(internal_pauses(ranges@.take(index as int), total@))
            } else {
                MAX_NANOS as nat
            },
            pause_longest@ == longest_nanos(internal_pauses(ranges@.take(index as int), total@)),
        decreases count - index,
    {
        let range = ranges[index];
        proof {
            let longer = ranges@.take(index + 1);
            let before = internal_pauses(ranges@.take(index as int), total@);
            assert(longer.drop_last() =~= ranges@.take(index as int));
            reveal_with_fuel(Seq::filter, 1);
            if is_internal(range, total@) {
                assert(internal_pauses(longer, total@) == before.push(range));
                assert(before.push(range).drop_last() =~= before);
            } else {
                assert(internal_pauses(longer, total@) == before);
            }
        }
        if !range.start.is_zero() && range.end.is_shorter_than(&total) {
            let span = range.duration();
            pause_count = pause_count + 1;
            pause_total = pause_total.saturating_add(span);
            pause_longest = pause_longest.max(span);
        }
        index = index + 1;
    }
    assert(ranges@.take(index as int) =~= ranges@);
    SilenceSummary { leading, trailing, pause_count, pause_total, pause_longest }
}

/// The longest pause is one of the pauses and no pause is longer; it is no longer than
/// all of them together.
pub proof fn law_longest_pause(ranges: Seq<SilenceRange>)
    ensures
        longest_nanos(ranges) <= sum_of_nanos(ranges),
        forall|i: int| 0 <= i < ranges.len() ==> (#[trigger] ranges[i]).nanos() <= longest_nanos(ranges),
        ranges.len() > 0 ==> exists|i: int|
            0 <= i < ranges.len() && (#[trigger] ranges[i]).nanos() == longest_nanos(ranges),
    decreases ranges.len(),
{
    if ranges.len() > 0 {
        let shorter = ranges.drop_last();
        law_longest_pause(shorter);
        assert(ranges[ranges.len() - 1] == ranges.last());
        assert forall|i: int| 0 <= i < ranges.len() implies (#[trigger] ranges[i]).nanos()
            <= longest_nanos(ranges) by {
            if i < ranges.len() - 1 {
                assert(shorter[i] == ranges[i]);
            }
        }
        if shorter.len() > 0 {
            let i = choose|i: int|
                0 <= i < shorter.len() && (#[trigger] shorter[i]).nanos() == longest_nanos(shorter);
            assert(ranges[i] == shorter[i]);
        }
    }
}

/// A run of silent windows that touches the start or the end of the sound is no pause;
/// it is counted as leading or as trailing silence.
pub proof fn law_edge_silence_is_no_pause(
    range: SilenceRange,
    run: (int, int),
    frame_count: nat,
    sample_rate: nat,
)
    requires
        sample_rate > 0,
        is_range_of_run(range, run, frame_count, sample_rate),
        0 <= run.0 < run.1,
        run.0 == 0 || run.1 >= window_count(frame_count, sample_rate),
    ensures
        !is_internal(range, nanos_of_quotient(frame_count, sample_rate)),
        run.0 == 0 ==> range.start@ == 0,
        run.1 >= window_count(frame_count, sample_rate) ==> range.end@ == nanos_of_quotient(
            frame_count,
            sample_rate,
        ),
{
    if run.0 == 0 {
        assert(0 * window_frames(sample_rate) == 0) by (nonlinear_arith);
        law_nothing_lasts_no_time(sample_rate);
    }
    if run.1 >= window_count(frame_count, sample_rate) {
        lemma_windows(run.1 as nat, frame_count, sample_rate);
        assert(window_start(run.1 as nat, frame_count, sample_rate) == frame_count);
    }
}

/// Whether the first window of a sound takes time, and its last: neither is so short that
/// it is rounded away.
pub open spec fn edges_take_time(frame_count: nat, sample_rate: nat) -> bool {
    let count = window_count(frame_count, sample_rate);
    count > 0 ==> {
        &&& 0 < nanos_of_quotient(window_start(1, frame_count, sample_rate), sample_rate)
        &&& nanos_of_quotient(
            window_start((count - 1) as nat, frame_count, sample_rate),
            sample_rate,
        ) < nanos_of_quotient(frame_count, sample_rate)
    }
}

/// The edges of a sound take time wherever its frames do: at up to 500 MHz, in a sound of
/// fewer than `2^51` frames.
pub proof fn law_edges_take_time(frame_count: nat, sample_rate: nat)
    requires
        0 < sample_rate <= 500_000_000,
        frame_count < 0x8_0000_0000_0000,
    ensures
        edges_take_time(frame_count, sample_rate),
{
    let count = window_count(frame_count, sample_rate);
    if count > 0 {
        lemma_windows(0, frame_count, sample_rate);
        lemma_windows((count - 1) as nat, frame_count, sample_rate);
        let frames = window_frames(sample_rate);
        assert(0 * frames == 0 && 1 * frames == frames) by (nonlinear_arith);
        law_nothing_lasts_no_time(sample_rate);
        law_each_count_takes_time(0, window_start(1, frame_count, sample_rate), sample_rate);
        law_each_count_takes_time(
            window_start((count - 1) as nat, frame_count, sample_rate),
            frame_count,
            sample_rate,
        );
    }
}

/// Windows start in their order.
proof fn lemma_window_times(window: nat, later: nat, frame_count: nat, sample_rate: nat)
    requires
        sample_rate > 0,
        window <= later,
    ensures
        nanos_of_quotient(window_start(window, frame_count, sample_rate), sample_rate)
            <= nanos_of_quotient(window_start(later, frame_count, sample_rate), sample_rate),
{
    let frames = window_frames(sample_rate);
    assert(window * frames <= later * frames) by (nonlinear_arith)
        requires
            window <= later,
    ;
    law_time_follows_counts(
        window_start(window, frame_count, sample_rate),
        window_start(later, frame_count, sample_rate),
        sample_rate,
    );
}

/// Where the pauses are the ranges from `low` up to `high`, there are that many.
proof fn lemma_pauses_between(ranges: Seq<SilenceRange>, total: nat, low: int, high: int)
    requires
        0 <= low <= high <= ranges.len(),
        forall|i: int|
            0 <= i < ranges.len() ==> (is_internal(#[trigger] ranges[i], total) <==> low <= i
                < high),
    ensures
        internal_pauses(ranges, total).len() == high - low,
    decreases ranges.len(),
{
    reveal_with_fuel(Seq::filter, 1);
    if ranges.len() > 0 {
        let rest = ranges.drop_last();
        let end = ranges.len() - 1;
        assert forall|i: int| 0 <= i < rest.len() implies rest[i] == #[trigger] ranges[i] by {}
        assert(ranges.last() == ranges[end]);
        let inner_high = if high <= end {
            high
        } else {
            end
        };
        let inner_low = if low <= end {
            low
        } else {
            end
        };
        assert forall|i: int| 0 <= i < rest.len() implies (is_internal(#[trigger] rest[i], total)
            <==> inner_low <= i < inner_high) by {
            assert(is_internal(ranges[i], total) <==> low <= i < high);
        }
        lemma_pauses_between(rest, total, inner_low, inner_high);
    }
}

/// Whether there are as many silences as the pauses, and one more each for leading and for
/// trailing silence; a single one that is the whole sound is both.
pub open spec fn counts_each_once(
    summary: SilenceSummary,
    ranges: Seq<SilenceRange>,
    total: nat,
) -> bool {
    let leading: int = if summary.leading@ > 0 {
        1
    } else {
        0
    };
    let trailing: int = if summary.trailing@ > 0 {
        1
    } else {
        0
    };
    let whole: int = if ranges.len() == 1 && ranges[0].start@ == 0 && ranges[0].end@ == total {
        1
    } else {
        0
    };
    ranges.len() == summary.pause_count + leading + trailing - whole
}

/// The pauses up to a range last no longer than the sound has by its end.
proof fn lemma_pauses_fit(
    ranges: Seq<SilenceRange>,
    silent: Seq<bool>,
    frame_count: nat,
    sample_rate: nat,
    total: nat,
    upto: int,
)
    requires
        sample_rate > 0,
        are_silence_ranges(ranges, silent, frame_count, sample_rate),
        0 <= upto <= ranges.len(),
    ensures
        sum_of_nanos(internal_pauses(ranges.take(upto), total)) <= if upto == 0 {
            0
        } else {
            ranges[upto - 1].end@
        },
    decreases upto,
{
    reveal_with_fuel(Seq::filter, 1);
    if upto > 0 {
        let runs = silent_runs(silent);
        let longer = ranges.take(upto);
        let range = ranges[upto - 1];
        law_silent_runs(silent);
        lemma_pauses_fit(ranges, silent, frame_count, sample_rate, total, upto - 1);
        assert(longer.drop_last() =~= ranges.take(upto - 1));
        assert(longer.last() == range);
        let before = internal_pauses(ranges.take(upto - 1), total);
        assert(is_maximal_run(silent, runs[upto - 1].0, runs[upto - 1].1));
        lemma_window_times(
            runs[upto - 1].0 as nat,
            runs[upto - 1].1 as nat,
            frame_count,
            sample_rate,
        );
        if upto > 1 {
            assert(is_range_of_run(ranges[upto - 2], runs[upto - 2], frame_count, sample_rate));
            assert(is_maximal_run(silent, runs[upto - 2].0, runs[upto - 2].1));
            assert(runs[upto - 2].1 < runs[upto - 1].0);
            lemma_window_times(
                runs[upto - 2].1 as nat,
                runs[upto - 1].0 as nat,
                frame_count,
                sample_rate,
            );
        }
        if is_internal(range, total) {
            assert(internal_pauses(longer, total) == before.push(range));
            assert(before.push(range).drop_last() =~= before);
        } else {
            assert(internal_pauses(longer, total) == before);
        }
    } else {
        assert(ranges.take(0) =~= Seq::<SilenceRange>::empty());
    }
}

/// All pauses of a sound together last no longer than the sound, so that what is given as
/// their total is their sum.
pub proof fn law_pauses_fit_in_the_sound(
    ranges: Seq<SilenceRange>,
    silent: Seq<bool>,
    frame_count: nat,
    sample_rate: nat,
    summary: SilenceSummary,
)
    requires
        sample_rate > 0,
        nanos_of_quotient(frame_count, sample_rate) <= MAX_NANOS,
        are_silence_ranges(ranges, silent, frame_count, sample_rate),
        is_silence_summary(summary, ranges, nanos_of_quotient(frame_count, sample_rate)),
    ensures
        summary.pause_total@ == sum_of_nanos(
            internal_pauses(ranges, nanos_of_quotient(frame_count, sample_rate)),
        ),
        summary.pause_total@ <= nanos_of_quotient(frame_count, sample_rate),
{
    let total = nanos_of_quotient(frame_count, sample_rate);
    lemma_pauses_fit(ranges, silent, frame_count, sample_rate, total, ranges.len() as int);
    assert(ranges.take(ranges.len() as int) =~= ranges);
    if ranges.len() > 0 {
        let end = window_start(
            silent_runs(silent)[ranges.len() - 1].1 as nat,
            frame_count,
            sample_rate,
        );
        assert(is_range_of_run(
            ranges[ranges.len() - 1],
            silent_runs(silent)[ranges.len() - 1],
            frame_count,
            sample_rate,
        ));
        law_time_follows_counts(end, frame_count, sample_rate);
    }
}

/// Each silence is counted once: as a pause, as leading or as trailing silence. Only one
/// that is the whole sound is both of the latter.
///
/// A first or last window that is rounded away lasts no time, and is then not counted.
pub proof fn law_each_silence_is_counted_once(
    ranges: Seq<SilenceRange>,
    silent: Seq<bool>,
    frame_count: nat,
    sample_rate: nat,
    summary: SilenceSummary,
)
    requires
        sample_rate > 0,
        silent.len() == window_count(frame_count, sample_rate),
        are_silence_ranges(ranges, silent, frame_count, sample_rate),
        is_silence_summary(summary, ranges, nanos_of_quotient(frame_count, sample_rate)),
        edges_take_time(frame_count, sample_rate),
    ensures
        counts_each_once(summary, ranges, nanos_of_quotient(frame_count, sample_rate)),
{
    let total = nanos_of_quotient(frame_count, sample_rate);
    let runs = silent_runs(silent);
    let count = silent.len();
    let n = ranges.len();
    law_silent_runs(silent);
    if n == 0 {
        lemma_pauses_between(ranges, total, 0, 0);
    } else {
        assert(is_maximal_run(silent, runs[0].0, runs[0].1));
        lemma_windows(count, frame_count, sample_rate);
        assert(window_start(count, frame_count, sample_rate) == frame_count);
        assert forall|i: int| 0 <= i < n implies {
            &&& (#[trigger] ranges[i]).end@ > 0
            &&& ranges[i].start@ < total
            &&& ranges[i].end@ <= total
            &&& i > 0 ==> ranges[i].start@ > 0
            &&& i < n - 1 ==> ranges[i].end@ < total
        } by {
            assert(is_maximal_run(silent, runs[i].0, runs[i].1));
            lemma_window_times(1, runs[i].1 as nat, frame_count, sample_rate);
            lemma_window_times(runs[i].0 as nat, (count - 1) as nat, frame_count, sample_rate);
            lemma_window_times(runs[i].1 as nat, count, frame_count, sample_rate);
            if i > 0 {
                assert(is_maximal_run(silent, runs[0].0, runs[0].1));
                assert(runs[0].1 < runs[i].0);
                lemma_window_times(1, runs[i].0 as nat, frame_count, sample_rate);
            }
            if i < n - 1 {
                assert(is_maximal_run(silent, runs[n - 1].0, runs[n - 1].1));
                assert(runs[i].1 < runs[n - 1].0);
                lemma_window_times(
                    runs[i].1 as nat,
                    (count - 1) as nat,
                    frame_count,
                    sample_rate,
                );
            }
        }
        let low: int = if ranges[0].start@ == 0 {
            1
        } else {
            0
        };
        let high: int = if ranges[n - 1].end@ < total {
            n as int
        } else {
            n - 1
        };
        let bound = if low <= high {
            high
        } else {
            low
        };
        assert(ranges.last() == ranges[n - 1]);
        assert forall|i: int| 0 <= i < n implies (is_internal(#[trigger] ranges[i], total)
            <==> low <= i < bound) by {}
        lemma_pauses_between(ranges, total, low, bound);
    }
}

/// A window lasts twenty milliseconds, rounded down to whole frames but never to none:
/// a fiftieth of the frames in a second.
pub proof fn law_a_window_is_a_fiftieth_of_a_second(sample_rate: nat)
    ensures
        sample_rate >= 50 ==> 50 * window_frames(sample_rate) <= sample_rate < 50 * (window_frames(
            sample_rate,
        ) + 1),
        sample_rate < 50 ==> window_frames(sample_rate) == 1,
{
}

/// Windows follow each other without a gap: the first starts with the sound, each of the
/// next a window's frames behind the one before it, and none starts behind the end, where
/// the last of them ends.
pub proof fn law_windows_follow_each_other(window: nat, frame_count: nat, sample_rate: nat)
    ensures
        window_start(0, frame_count, sample_rate) == 0,
        window_start(window, frame_count, sample_rate) <= frame_count,
        window_start(window, frame_count, sample_rate) + window_frames(sample_rate) <= frame_count
            ==> window_start(window + 1, frame_count, sample_rate) == window_start(
            window,
            frame_count,
            sample_rate,
        ) + window_frames(sample_rate),
        window_start(window, frame_count, sample_rate) + window_frames(sample_rate) > frame_count
            ==> window_start(window + 1, frame_count, sample_rate) == frame_count,
        window < window_count(frame_count, sample_rate) <==> window_start(
            window,
            frame_count,
            sample_rate,
        ) < frame_count,
{
    let frames = window_frames(sample_rate);
    lemma_windows(window, frame_count, sample_rate);
    assert(0 * frames == 0);
    assert((window + 1) * frames == window * frames + frames) by (nonlinear_arith);
}

/// Each window counts by its own level alone, whatever the threshold is.
pub proof fn law_each_window_counts_by_its_own_level(
    levels: Seq<Option<Level>>,
    threshold: Level,
    window: int,
)
    requires
        0 <= window < levels.len(),
    ensures
        are_below(levels, threshold).len() == levels.len(),
        levels[window] matches Some(level) ==> are_below(levels, threshold)[window]
            == level.is_less(threshold),
        levels[window] is None ==> are_below(levels, threshold)[window] == (Level {
            bits: 0,
        }).is_less(threshold),
{
}

/// A window is silent exactly where its level is below the threshold, or where it has none
/// and the threshold is above zero. A level that is no number is not silent.
pub proof fn law_silent_windows_are_below(
    levels: Seq<Option<Level>>,
    threshold: Level,
    window: int,
)
    requires
        0 <= window < levels.len(),
        0 < threshold.bits <= 0x7FF0_0000_0000_0000,
    ensures
        levels[window] is None ==> are_below(levels, threshold)[window],
        levels[window] matches Some(level) ==> {
            &&& level.bits <= 0x7FF0_0000_0000_0000 ==> (are_below(levels, threshold)[window]
                <==> level.bits < threshold.bits)
            &&& 0x8000_0000_0000_0000 <= level.bits <= 0xFFF0_0000_0000_0000 ==> are_below(
                levels,
                threshold,
            )[window]
            &&& 0x7FF0_0000_0000_0000 < level.bits < 0x8000_0000_0000_0000
                || 0xFFF0_0000_0000_0000 < level.bits ==> !are_below(levels, threshold)[window]
        },
{
}

/// Silence lies where windows are silent, and nowhere else: a silent window lies within one
/// of the ranges, and one that is not silent within none. A range starts where a silent
/// window starts that no other precedes, and ends where one ends that no other follows.
pub proof fn law_silence_lies_in_silent_windows(
    ranges: Seq<SilenceRange>,
    silent: Seq<bool>,
    frame_count: nat,
    sample_rate: nat,
    window: int,
)
    requires
        sample_rate > 0,
        are_silence_ranges(ranges, silent, frame_count, sample_rate),
        0 <= window < silent.len(),
    ensures
        ({
            let from = nanos_of_quotient(
                window_start(window as nat, frame_count, sample_rate),
                sample_rate,
            );
            let to = nanos_of_quotient(
                window_start((window + 1) as nat, frame_count, sample_rate),
                sample_rate,
            );
            &&& ranges.len() == silent_runs(silent).len()
            &&& silent[window] ==> exists|i: int|
                0 <= i < ranges.len() && (#[trigger] ranges[i]).start@ <= from && to
                    <= ranges[i].end@
            &&& !silent[window] ==> forall|i: int|
                0 <= i < ranges.len() ==> (#[trigger] ranges[i]).end@ <= from || to
                    <= ranges[i].start@
            &&& silent[window] && (window == 0 || !silent[window - 1]) ==> exists|i: int|
                0 <= i < ranges.len() && (#[trigger] ranges[i]).start@ == from
            &&& silent[window] && (window + 1 == silent.len() || !silent[window + 1])
                ==> exists|i: int| 0 <= i < ranges.len() && (#[trigger] ranges[i]).end@ == to
        }),
{
    let runs = silent_runs(silent);
    let from = nanos_of_quotient(
        window_start(window as nat, frame_count, sample_rate),
        sample_rate,
    );
    let to = nanos_of_quotient(
        window_start((window + 1) as nat, frame_count, sample_rate),
        sample_rate,
    );
    law_silent_runs(silent);
    if silent[window] {
        let i = choose|i: int|
            0 <= i < runs.len() && (#[trigger] runs[i]).0 <= window < runs[i].1;
        assert(is_maximal_run(silent, runs[i].0, runs[i].1));
        assert(is_range_of_run(ranges[i], runs[i], frame_count, sample_rate));
        lemma_later_windows(runs[i].0 as nat, window as nat, frame_count, sample_rate);
        lemma_later_windows((window + 1) as nat, runs[i].1 as nat, frame_count, sample_rate);
        if window > runs[i].0 {
            assert(silent[window - 1]);
        }
        if window + 1 < runs[i].1 {
            assert(silent[window + 1]);
        }
    } else {
        assert forall|i: int| 0 <= i < ranges.len() implies (#[trigger] ranges[i]).end@ <= from
            || to <= ranges[i].start@ by {
            assert(is_maximal_run(silent, runs[i].0, runs[i].1));
            assert(is_range_of_run(ranges[i], runs[i], frame_count, sample_rate));
            if runs[i].1 <= window {
                lemma_later_windows(runs[i].1 as nat, window as nat, frame_count, sample_rate);
            } else {
                if runs[i].0 <= window {
                    assert(silent[window]);
                }
                lemma_later_windows(
                    (window + 1) as nat,
                    runs[i].0 as nat,
                    frame_count,
                    sample_rate,
                );
            }
        }
    }
}

/// Later windows do not start earlier.
proof fn lemma_later_windows(window: nat, later: nat, frame_count: nat, sample_rate: nat)
    requires
        sample_rate > 0,
        window <= later,
    ensures
        nanos_of_quotient(window_start(window, frame_count, sample_rate), sample_rate)
            <= nanos_of_quotient(window_start(later, frame_count, sample_rate), sample_rate),
{
    let frames = window_frames(sample_rate);
    assert(window * frames <= later * frames) by (nonlinear_arith)
        requires
            window <= later,
    ;
    law_time_follows_counts(
        window_start(window, frame_count, sample_rate),
        window_start(later, frame_count, sample_rate),
        sample_rate,
    );
}

/// The silence at the start lasts to the end of the first range where that starts at zero,
/// and the one at the end from the start of the last range where that reaches the end of
/// the sound. Where they do not, there is none.
pub proof fn law_edges_of_silence(
    summary: SilenceSummary,
    ranges: Seq<SilenceRange>,
    total: nat,
)
    requires
        is_silence_summary(summary, ranges, total),
        forall|i: int| 0 <= i < ranges.len() ==> (#[trigger] ranges[i]).start@ <= ranges[i].end@,
    ensures
        ranges.len() == 0 ==> summary.leading@ == 0 && summary.trailing@ == 0
            && summary.pause_count == 0 && summary.pause_total@ == 0 && summary.pause_longest@
            == 0,
        ranges.len() > 0 && ranges[0].start@ == 0 ==> summary.leading@ == ranges[0].end@,
        ranges.len() > 0 && ranges[0].start@ > 0 ==> summary.leading@ == 0,
        ranges.len() > 0 && ranges[ranges.len() - 1].end@ >= total ==> summary.trailing@
            + ranges[ranges.len() - 1].start@ == ranges[ranges.len() - 1].end@,
        ranges.len() > 0 && ranges[ranges.len() - 1].end@ < total ==> summary.trailing@ == 0,
{
    reveal_with_fuel(Seq::filter, 1);
    if ranges.len() > 0 {
        assert(ranges[0].start@ <= ranges[0].end@);
        assert(ranges.last() == ranges[ranges.len() - 1]);
    }
}

/// What one more range adds to the pauses of a sound: one, and the time from its start to
/// its end, where it touches neither the start nor the end of the sound, and else nothing.
pub proof fn law_pauses_add_up(ranges: Seq<SilenceRange>, range: SilenceRange, total: nat)
    requires
        range.start@ <= range.end@,
    ensures
        ({
            let before = internal_pauses(ranges, total);
            let after = internal_pauses(ranges.push(range), total);
            let length = range.end@ - range.start@;
            if 0 < range.start@ && range.end@ < total {
                &&& after.len() == before.len() + 1
                &&& sum_of_nanos(after) == sum_of_nanos(before) + length
                &&& longest_nanos(after) >= length
                &&& longest_nanos(after) == length || longest_nanos(after) == longest_nanos(before)
                &&& longest_nanos(after) >= longest_nanos(before)
            } else {
                after == before
            }
        }),
        internal_pauses(Seq::empty(), total).len() == 0,
        sum_of_nanos(Seq::empty()) == 0,
        longest_nanos(Seq::empty()) == 0,
{
    reveal_with_fuel(Seq::filter, 1);
    assert(ranges.push(range).drop_last() =~= ranges);
    let before = internal_pauses(ranges, total);
    if is_internal(range, total) {
        let after = before.push(range);
        assert(after.drop_last() =~= before);
    }
}

/// Pauses are the silences that touch neither edge of the sound: none of them lasts longer
/// than the longest, which is one of them, and they are as many and last as long together as
/// the figures say, where that is within the range of a span.
pub proof fn law_pauses_are_summed_up(
    summary: SilenceSummary,
    ranges: Seq<SilenceRange>,
    total: nat,
)
    requires
        is_silence_summary(summary, ranges, total),
        forall|i: int| 0 <= i < ranges.len() ==> (#[trigger] ranges[i]).start@ <= ranges[i].end@,
    ensures
        summary.pause_count == internal_pauses(ranges, total).len(),
        sum_of_nanos(internal_pauses(ranges, total)) <= MAX_NANOS ==> summary.pause_total@
            == sum_of_nanos(internal_pauses(ranges, total)),
        forall|i: int|
            0 <= i < ranges.len() && 0 < (#[trigger] ranges[i]).start@ && ranges[i].end@ < total
                ==> ranges[i].end@ - ranges[i].start@ <= summary.pause_longest@,
        summary.pause_count == 0 ==> summary.pause_longest@ == 0,
        summary.pause_count > 0 ==> exists|i: int|
            0 <= i < ranges.len() && 0 < (#[trigger] ranges[i]).start@ && ranges[i].end@ < total
                && ranges[i].end@ - ranges[i].start@ == summary.pause_longest@,
{
    let pauses = internal_pauses(ranges, total);
    law_longest_pause(pauses);
    assert forall|i: int|
        0 <= i < ranges.len() && 0 < (#[trigger] ranges[i]).start@ && ranges[i].end@
            < total implies ranges[i].end@ - ranges[i].start@ <= summary.pause_longest@ by {
        ranges.lemma_filter_contains(|range: SilenceRange| is_internal(range, total), i);
        let j = choose|j: int| 0 <= j < pauses.len() && pauses[j] == ranges[i];
        assert(pauses[j].nanos() <= longest_nanos(pauses));
    }
    if pauses.len() > 0 {
        let j = choose|j: int|
            0 <= j < pauses.len() && (#[trigger] pauses[j]).nanos() == longest_nanos(pauses);
        lemma_pause_is_a_range(ranges, total, j);
    }
}

/// A pause is one of the silences.
proof fn lemma_pause_is_a_range(ranges: Seq<SilenceRange>, total: nat, at: int)
    requires
        0 <= at < internal_pauses(ranges, total).len(),
    ensures
        exists|i: int|
            0 <= i < ranges.len() && #[trigger] ranges[i] == internal_pauses(ranges, total)[at]
                && is_internal(ranges[i], total),
    decreases ranges.len(),
{
    reveal_with_fuel(Seq::filter, 1);
    let last = ranges.len() - 1;
    let earlier = internal_pauses(ranges.drop_last(), total);
    if at < earlier.len() {
        lemma_pause_is_a_range(ranges.drop_last(), total, at);
        let i = choose|i: int|
            0 <= i < ranges.drop_last().len() && #[trigger] ranges.drop_last()[i] == earlier[at]
                && is_internal(ranges.drop_last()[i], total);
        assert(ranges[i] == ranges.drop_last()[i]);
    } else {
        assert(ranges[last] == ranges.last());
    }
}

} // verus!
