//! The figures that describe a sound.

use vstd::arithmetic::div_mod::{
    lemma_div_denominator, lemma_fundamental_div_mod, lemma_fundamental_div_mod_converse,
};
use vstd::prelude::*;

use crate::duration::{nanos_of_quotient, Duration, MAX_NANOS};
use crate::level::{
    audible, audible_level, greatest_level, law_positive_levels_have_decibels,
    law_the_loudest_has_the_greatest_pattern, loudest, Level,
};
use crate::sample::{law_samples_reach_by_magnitude, Sample};
use crate::silence::{
    are_silence_ranges, counts_each_once, edges_take_time, frames_per_window, internal_pauses,
    is_silence_summary, law_each_silence_is_counted_once, law_pauses_fit_in_the_sound,
    longest_nanos, sum_of_nanos, summarize_silence, window_count, window_frames, SilenceRange,
    SilenceSummary,
};

verus! {

/// What was measured of a sound: linear levels, but for the integrated loudness, which
/// is in LUFS.
#[derive(Clone, Debug)]
pub struct Measurements {
    /// The root mean square of the samples that are not silent, if there are any.
    pub active_rms: Option<Level>,
    /// The integrated loudness.
    pub integrated_lufs: Level,
    /// The sample peak of each channel.
    pub sample_peaks: Vec<Level>,
    /// The true peak of each channel.
    pub true_peaks: Vec<Level>,
    /// The mean of each channel.
    pub dc_offsets: Vec<Level>,
}

/// The figures that describe a sound. A level that can not be written in decibels is
/// left out, and so is a loudness that is no number.
#[derive(Clone, Debug)]
pub struct AudioMetrics {
    pub active_speech_rms: Option<Level>,
    pub integrated_lufs: Option<Level>,
    pub sample_peak: Option<Level>,
    pub true_peak: Option<Level>,
    pub dc_offsets: Vec<Level>,
    pub near_clipped_samples: usize,
    pub total_samples: usize,
    pub silence: SilenceSummary,
}

/// Whether the sample at `index` belongs to a window that is marked active.
pub open spec fn is_active_sample(
    index: int,
    channel_count: nat,
    sample_rate: nat,
    active_windows: Seq<bool>,
) -> bool {
    let window = index / channel_count as int / window_frames(sample_rate) as int;
    0 <= window < active_windows.len() && active_windows[window]
}

/// The samples that belong to active windows, in order.
pub open spec fn active_part(
    samples: Seq<Sample>,
    channel_count: nat,
    sample_rate: nat,
    active_windows: Seq<bool>,
) -> Seq<Sample>
    decreases samples.len(),
{
    if samples.len() == 0 {
        Seq::empty()
    } else {
        let before = active_part(
            samples.drop_last(),
            channel_count,
            sample_rate,
            active_windows,
        );
        if is_active_sample(samples.len() - 1, channel_count, sample_rate, active_windows) {
            before.push(samples.last())
        } else {
            before
        }
    }
}

/// The samples that belong to active windows, in order. The samples behind the last
/// whole frame go with the window in which their frame would lie.
pub fn active_samples(
    samples: &Vec<Sample>,
    channel_count: usize,
    sample_rate: u32,
    active_windows: &Vec<bool>,
) -> (active: Vec<Sample>)
    requires
        channel_count > 0,
    ensures
        active@ == active_part(
            samples@,
            channel_count as nat,
            sample_rate as nat,
            active_windows@,
        ),
{
    let frames: usize = frames_per_window(sample_rate);
    let mut active: Vec<Sample> = Vec::new();
    let mut index: usize = 0;
    assert(samples@.take(0) =~= Seq::<Sample>::empty());
    while index < samples.len()
        invariant
            channel_count > 0,
            frames > 0,
            frames == window_frames(sample_rate as nat),
            index <= samples@.len(),
            active@ == active_part(
                samples@.take(index as int),
                channel_count as nat,
                sample_rate as nat,
                active_windows@,
            ),
        decreases samples@.len() - index,
    {
        assert(samples@.take(index + 1).drop_last() =~= samples@.take(index as int));
        let window: usize = index / channel_count / frames;
        if window < active_windows.len() && active_windows[window] {
            active.push(samples[index]);
        }
        index = index + 1;
    }
    assert(samples@.take(index as int) =~= samples@);
    active
}

/// The samples whose magnitude reaches `threshold`.
pub open spec fn reaching(samples: Seq<Sample>, threshold: Sample) -> Seq<Sample> {
    samples.filter(|sample: Sample| sample.is_at_least(threshold))
}

/// Counts the samples whose magnitude reaches `threshold`.
pub fn count_reaching(samples: &Vec<Sample>, threshold: Sample) -> (count: usize)
    ensures
        count == reaching(samples@, threshold).len(),
{
    let mut count: usize = 0;
    let mut index: usize = 0;
    proof {
        reveal_with_fuel(Seq::filter, 1);
        assert(samples@.take(0) =~= Seq::<Sample>::empty());
    }
    while index < samples.len()
        invariant
            count <= index <= samples@.len(),
            count == reaching(samples@.take(index as int), threshold).len(),
        decreases samples@.len() - index,
    {
        proof {
            reveal_with_fuel(Seq::filter, 1);
            assert(samples@.take(index + 1).drop_last() =~= samples@.take(index as int));
        }
        if samples[index].reaches(threshold) {
            count = count + 1;
        }
        index = index + 1;
    }
    assert(samples@.take(index as int) =~= samples@);
    count
}

/// Whether `metrics` describe a sound of which `measured` was measured.
pub open spec fn are_metrics(
    metrics: AudioMetrics,
    samples: Seq<Sample>,
    sample_rate: nat,
    channel_count: nat,
    silence_ranges: Seq<SilenceRange>,
    near_clip_threshold: Sample,
    measured: Measurements,
) -> bool {
    &&& metrics.active_speech_rms == audible_level(measured.active_rms)
    &&& metrics.integrated_lufs == if measured.integrated_lufs.is_finite_number() {
        Some(measured.integrated_lufs)
    } else {
        None
    }
    &&& metrics.sample_peak == audible_level(greatest_level(measured.sample_peaks@))
    &&& metrics.true_peak == audible_level(greatest_level(measured.true_peaks@))
    &&& metrics.dc_offsets@ == measured.dc_offsets@
    &&& metrics.near_clipped_samples == reaching(samples, near_clip_threshold).len()
    &&& metrics.total_samples == samples.len()
    &&& is_silence_summary(
        metrics.silence,
        silence_ranges,
        nanos_of_quotient(samples.len() / channel_count, sample_rate),
    )
}

/// Puts the figures of a sound together: what was measured of its levels, how many of
/// its samples come near full scale, and what its silences come to.
pub fn analyze_metrics(
    samples: &Vec<Sample>,
    sample_rate: u32,
    channel_count: usize,
    silence_ranges: &Vec<SilenceRange>,
    near_clip_threshold: Sample,
    measured: Measurements,
) -> (metrics: AudioMetrics)
    requires
        channel_count > 0,
        sample_rate > 0,
        samples@.len() / (channel_count as nat) < 0xFFFF_FFFF_FFFF_FC00 || sample_rate > 1,
    ensures
        are_metrics(
            metrics,
            samples@,
            sample_rate as nat,
            channel_count as nat,
            silence_ranges@,
            near_clip_threshold,
            measured,
        ),
{
    let frame_count: usize = samples.len() / channel_count;
    let total = Duration::from_quotient(frame_count as u64, sample_rate as u64);
    let silence = summarize_silence(silence_ranges, total);
    let integrated_lufs = if measured.integrated_lufs.is_finite() {
        Some(measured.integrated_lufs)
    } else {
        None
    };
    AudioMetrics {
        active_speech_rms: audible(measured.active_rms),
        integrated_lufs,
        sample_peak: audible(loudest(&measured.sample_peaks)),
        true_peak: audible(loudest(&measured.true_peaks)),
        dc_offsets: measured.dc_offsets,
        near_clipped_samples: count_reaching(samples, near_clip_threshold),
        total_samples: samples.len(),
        silence,
    }
}

/// Each silence of a sound is counted once among its figures, and its pauses come to their
/// sum, wherever its first and last window take time and its length is that of a
/// [`Duration`].
pub proof fn law_figures_count_each_silence_once(
    metrics: AudioMetrics,
    samples: Seq<Sample>,
    sample_rate: nat,
    channel_count: nat,
    silent: Seq<bool>,
    silence_ranges: Seq<SilenceRange>,
    near_clip_threshold: Sample,
    measured: Measurements,
)
    requires
        channel_count > 0,
        sample_rate > 0,
        nanos_of_quotient(samples.len() / channel_count, sample_rate) <= MAX_NANOS,
        silent.len() == window_count(samples.len() / channel_count, sample_rate),
        edges_take_time(samples.len() / channel_count, sample_rate),
        are_silence_ranges(
            silence_ranges,
            silent,
            samples.len() / channel_count,
            sample_rate,
        ),
        are_metrics(
            metrics,
            samples,
            sample_rate,
            channel_count,
            silence_ranges,
            near_clip_threshold,
            measured,
        ),
    ensures
        ({
            let total = nanos_of_quotient(samples.len() / channel_count, sample_rate);
            let pauses = internal_pauses(silence_ranges, total);
            &&& counts_each_once(metrics.silence, silence_ranges, total)
            &&& metrics.silence.pause_count == pauses.len()
            &&& metrics.silence.pause_total@ == sum_of_nanos(pauses)
            &&& metrics.silence.pause_longest@ == longest_nanos(pauses)
        }),
{
    let frame_count = samples.len() / channel_count;
    law_each_silence_is_counted_once(
        silence_ranges,
        silent,
        frame_count,
        sample_rate,
        metrics.silence,
    );
    law_pauses_fit_in_the_sound(
        silence_ranges,
        silent,
        frame_count,
        sample_rate,
        metrics.silence,
    );
}

/// Each sample counts by its own window alone: of windows of `channel_count` samples for
/// each of their frames, one behind the other from the first sample on, a sample is kept
/// exactly where the window that holds it exists and is marked active.
pub proof fn law_each_sample_counts_by_its_own_window(
    index: int,
    window: int,
    channel_count: nat,
    sample_rate: nat,
    active_windows: Seq<bool>,
)
    requires
        channel_count > 0,
        0 <= window,
        window * (channel_count * window_frames(sample_rate)) <= index < (window + 1) * (
        channel_count * window_frames(sample_rate)),
    ensures
        is_active_sample(index, channel_count, sample_rate, active_windows) <==> window
            < active_windows.len() && active_windows[window],
{
    let channels = channel_count as int;
    let frames = window_frames(sample_rate) as int;
    let span = channels * frames;
    let rest = index - window * span;
    assert(span > 0) by (nonlinear_arith)
        requires
            span == channels * frames,
            channels > 0,
            frames > 0,
    ;
    assert(0 <= rest < span) by (nonlinear_arith)
        requires
            rest == index - window * span,
            window * span <= index,
            index < (window + 1) * span,
    ;
    assert(0 <= window * span) by (nonlinear_arith)
        requires
            0 <= window,
            0 < span,
    ;
    lemma_fundamental_div_mod_converse(index, span, window, rest);
    lemma_div_denominator(index, channels, frames);
}

/// How many of the first samples the first `windows` windows of `span` samples each hold.
pub open spec fn windows_end(windows: nat, span: nat, sample_count: nat) -> nat {
    if windows * span <= sample_count {
        windows * span
    } else {
        sample_count
    }
}

/// The samples in those of the first `windows` windows that are marked active.
pub open spec fn active_count(
    windows: nat,
    span: nat,
    sample_count: nat,
    active_windows: Seq<bool>,
) -> nat
    decreases windows,
{
    if windows == 0 {
        0
    } else {
        let last = (windows - 1) as nat;
        active_count(last, span, sample_count, active_windows) + if last < active_windows.len()
            && active_windows[last as int] {
            (windows_end(windows, span, sample_count) - windows_end(last, span, sample_count))
                as nat
        } else {
            0
        }
    }
}

/// What one more window does: where it is marked active, all of its samples are kept,
/// behind those of the windows before it, and else none.
pub proof fn law_a_window_is_kept_or_left_out_whole(
    samples: Seq<Sample>,
    window: nat,
    channel_count: nat,
    sample_rate: nat,
    active_windows: Seq<bool>,
)
    requires
        channel_count > 0,
    ensures
        ({
            let span = channel_count * window_frames(sample_rate);
            let start = windows_end(window, span, samples.len()) as int;
            let end = windows_end(window + 1, span, samples.len()) as int;
            active_part(samples.take(end), channel_count, sample_rate, active_windows)
                == active_part(samples.take(start), channel_count, sample_rate, active_windows) + (
            if window < active_windows.len() && active_windows[window as int] {
                samples.subrange(start, end)
            } else {
                Seq::empty()
            })
        }),
{
    let span = channel_count * window_frames(sample_rate);
    let start = windows_end(window, span, samples.len()) as int;
    let end = windows_end(window + 1, span, samples.len()) as int;
    assert(window * span + span == (window + 1) * span) by (nonlinear_arith);
    lemma_kept_within_window(
        samples,
        window,
        end,
        channel_count,
        sample_rate,
        active_windows,
    );
}

/// What the samples up to `end`, which lies in the window at `window`, add.
proof fn lemma_kept_within_window(
    samples: Seq<Sample>,
    window: nat,
    end: int,
    channel_count: nat,
    sample_rate: nat,
    active_windows: Seq<bool>,
)
    requires
        channel_count > 0,
        windows_end(window, channel_count * window_frames(sample_rate), samples.len()) <= end
            <= windows_end(window + 1, channel_count * window_frames(sample_rate), samples.len()),
    ensures
        active_part(samples.take(end), channel_count, sample_rate, active_windows) == active_part(
            samples.take(
                windows_end(
                    window,
                    channel_count * window_frames(sample_rate),
                    samples.len(),
                ) as int,
            ),
            channel_count,
            sample_rate,
            active_windows,
        ) + (if window < active_windows.len() && active_windows[window as int] {
            samples.subrange(
                windows_end(
                    window,
                    channel_count * window_frames(sample_rate),
                    samples.len(),
                ) as int,
                end,
            )
        } else {
            Seq::empty()
        }),
    decreases end,
{
    let span = channel_count * window_frames(sample_rate);
    let start = windows_end(window, span, samples.len()) as int;
    let kept = active_part(samples.take(start), channel_count, sample_rate, active_windows);
    let on = window < active_windows.len() && active_windows[window as int];
    if end == start {
        assert(samples.subrange(start, end) =~= Seq::empty());
        assert(kept + Seq::<Sample>::empty() =~= kept);
    } else {
        lemma_kept_within_window(
            samples,
            window,
            end - 1,
            channel_count,
            sample_rate,
            active_windows,
        );
        assert(samples.take(end).drop_last() =~= samples.take(end - 1));
        law_each_sample_counts_by_its_own_window(
            end - 1,
            window as int,
            channel_count,
            sample_rate,
            active_windows,
        );
        if on {
            assert(samples.subrange(start, end) =~= samples.subrange(start, end - 1).push(
                samples[end - 1],
            ));
            assert((kept + samples.subrange(start, end - 1)).push(samples[end - 1]) =~= kept
                + samples.subrange(start, end));
        }
    }
}

/// The number of samples kept is the sum of the lengths of the active windows.
pub proof fn law_active_windows_add_up(
    samples: Seq<Sample>,
    windows: nat,
    channel_count: nat,
    sample_rate: nat,
    active_windows: Seq<bool>,
)
    requires
        channel_count > 0,
    ensures
        ({
            let span = channel_count * window_frames(sample_rate);
            active_part(
                samples.take(windows_end(windows, span, samples.len()) as int),
                channel_count,
                sample_rate,
                active_windows,
            ).len() == active_count(windows, span, samples.len(), active_windows)
        }),
    decreases windows,
{
    let span = channel_count * window_frames(sample_rate);
    if windows == 0 {
        assert(0 * span == 0);
        assert(samples.take(0).len() == 0);
    } else {
        let last = (windows - 1) as nat;
        assert(last * span + span == windows * span) by (nonlinear_arith)
            requires
                last + 1 == windows,
        ;
        law_active_windows_add_up(samples, last, channel_count, sample_rate, active_windows);
        law_a_window_is_kept_or_left_out_whole(
            samples,
            last,
            channel_count,
            sample_rate,
            active_windows,
        );
    }
}

/// Where every window is active and there are enough of them, all samples are kept, and
/// where none is, no sample is.
pub proof fn law_all_windows_keep_all_samples(
    samples: Seq<Sample>,
    channel_count: nat,
    sample_rate: nat,
    active_windows: Seq<bool>,
)
    requires
        channel_count > 0,
    ensures
        samples.len() <= active_windows.len() * (channel_count * window_frames(sample_rate)) && (
        forall|w: int| 0 <= w < active_windows.len() ==> #[trigger] active_windows[w])
            ==> active_part(samples, channel_count, sample_rate, active_windows) == samples,
        (forall|w: int| 0 <= w < active_windows.len() ==> !#[trigger] active_windows[w])
            ==> active_part(samples, channel_count, sample_rate, active_windows).len() == 0,
    decreases samples.len(),
{
    if samples.len() > 0 {
        let shorter = samples.drop_last();
        let last = samples.len() - 1;
        let span = (channel_count * window_frames(sample_rate)) as int;
        law_all_windows_keep_all_samples(shorter, channel_count, sample_rate, active_windows);
        assert(span > 0) by (nonlinear_arith)
            requires
                span == channel_count * window_frames(sample_rate),
                channel_count > 0,
                window_frames(sample_rate) > 0,
        ;
        let window = last / span;
        lemma_fundamental_div_mod(last, span);
        assert(0 <= window && window * span <= last < (window + 1) * span) by (nonlinear_arith)
            requires
                last == span * window + last % span,
                0 <= last % span < span,
                0 <= last,
                span > 0,
        ;
        law_each_sample_counts_by_its_own_window(
            last,
            window,
            channel_count,
            sample_rate,
            active_windows,
        );
        if samples.len() <= active_windows.len() * span {
            assert(window < active_windows.len()) by (nonlinear_arith)
                requires
                    window * span < active_windows.len() * span,
                    span > 0,
            ;
        }
        assert(shorter.push(samples.last()) =~= samples);
    }
}

/// What one more sample adds to those near full scale: one where its pattern, with its sign
/// or without, is that of a number that is not less than the threshold, and else nothing.
pub proof fn law_samples_near_full_scale_add_up(
    samples: Seq<Sample>,
    sample: Sample,
    threshold: Sample,
)
    ensures
        reaching(Seq::empty(), threshold).len() == 0,
        reaching(samples.push(sample), threshold).len() == reaching(samples, threshold).len() + (
        if sample.is_at_least(threshold) {
            1int
        } else {
            0int
        }),
        threshold.bits <= 0x7F80_0000 && (threshold.bits <= sample.bits <= 0x7F80_0000 || 0x8000_0000 + threshold.bits <= sample.bits
            <= 0xFF80_0000) ==> reaching(samples.push(sample), threshold).len() == reaching(
            samples,
            threshold,
        ).len() + 1,
        threshold.bits <= 0x7F80_0000 && !(threshold.bits <= sample.bits <= 0x7F80_0000 || 0x8000_0000 + threshold.bits
            <= sample.bits <= 0xFF80_0000) ==> reaching(samples.push(sample), threshold).len()
            == reaching(samples, threshold).len(),
{
    reveal_with_fuel(Seq::filter, 1);
    assert(samples.push(sample).drop_last() =~= samples);
    law_samples_reach_by_magnitude(sample, threshold);
}

/// Each figure is that of what it is named after: the peaks are the greatest measured ones,
/// where those are finite and above zero, and what is no finite number is left out.
pub proof fn law_figures_are_what_was_measured(
    metrics: AudioMetrics,
    samples: Seq<Sample>,
    sample_rate: nat,
    channel_count: nat,
    silence_ranges: Seq<SilenceRange>,
    near_clip_threshold: Sample,
    measured: Measurements,
)
    requires
        are_metrics(
            metrics,
            samples,
            sample_rate,
            channel_count,
            silence_ranges,
            near_clip_threshold,
            measured,
        ),
    ensures
        metrics.total_samples == samples.len(),
        metrics.near_clipped_samples == reaching(samples, near_clip_threshold).len(),
        metrics.dc_offsets@ == measured.dc_offsets@,
        metrics.active_speech_rms matches Some(level) ==> measured.active_rms == Some(level)
            && 0 < level.bits < 0x7FF0_0000_0000_0000,
        measured.active_rms matches Some(level) ==> 0 < level.bits < 0x7FF0_0000_0000_0000
            ==> metrics.active_speech_rms == Some(level),
        metrics.integrated_lufs matches Some(level) ==> level == measured.integrated_lufs,
        metrics.integrated_lufs is Some <==> measured.integrated_lufs.bits < 0x7FF0_0000_0000_0000
            || 0x8000_0000_0000_0000 <= measured.integrated_lufs.bits < 0xFFF0_0000_0000_0000,
        metrics.sample_peak matches Some(peak) ==> measured.sample_peaks@.contains(peak) && 0
            < peak.bits < 0x7FF0_0000_0000_0000 && forall|i: int|
            0 <= i < measured.sample_peaks@.len() && (#[trigger] measured.sample_peaks@[i]).bits
                <= 0x7FF0_0000_0000_0000 ==> measured.sample_peaks@[i].bits <= peak.bits,
        metrics.sample_peak is None ==> forall|i: int|
            0 <= i < measured.sample_peaks@.len() && 0 < (
            #[trigger] measured.sample_peaks@[i]).bits < 0x7FF0_0000_0000_0000 ==> exists|j: int|
                0 <= j < measured.sample_peaks@.len() && (#[trigger] measured.sample_peaks@[j]).bits
                    == 0x7FF0_0000_0000_0000,
        metrics.true_peak matches Some(peak) ==> measured.true_peaks@.contains(peak) && 0
            < peak.bits < 0x7FF0_0000_0000_0000 && forall|i: int|
            0 <= i < measured.true_peaks@.len() && (#[trigger] measured.true_peaks@[i]).bits
                <= 0x7FF0_0000_0000_0000 ==> measured.true_peaks@[i].bits <= peak.bits,
        metrics.true_peak is None ==> forall|i: int|
            0 <= i < measured.true_peaks@.len() && 0 < (#[trigger] measured.true_peaks@[i]).bits
                < 0x7FF0_0000_0000_0000 ==> exists|j: int|
                0 <= j < measured.true_peaks@.len() && (#[trigger] measured.true_peaks@[j]).bits
                    == 0x7FF0_0000_0000_0000,
{
    lemma_peak_is_measured(measured.sample_peaks@);
    lemma_peak_is_measured(measured.true_peaks@);
    law_positive_levels_have_decibels(measured.integrated_lufs);
}

/// A peak that is left out is that of silence, or infinite.
proof fn lemma_peak_is_measured(peaks: Seq<Level>)
    ensures
        audible_level(greatest_level(peaks)) matches Some(peak) ==> peaks.contains(peak) && 0
            < peak.bits < 0x7FF0_0000_0000_0000 && forall|i: int|
            0 <= i < peaks.len() && (#[trigger] peaks[i]).bits <= 0x7FF0_0000_0000_0000
                ==> peaks[i].bits <= peak.bits,
        audible_level(greatest_level(peaks)) is None ==> forall|i: int|
            0 <= i < peaks.len() && 0 < (#[trigger] peaks[i]).bits < 0x7FF0_0000_0000_0000
                ==> exists|j: int|
                0 <= j < peaks.len() && (#[trigger] peaks[j]).bits == 0x7FF0_0000_0000_0000,
{
    law_the_loudest_has_the_greatest_pattern(peaks);
    if peaks.len() > 0 {
        let loudest = greatest_level(peaks)->0;
        if audible_level(greatest_level(peaks)) is None {
            assert forall|i: int|
                0 <= i < peaks.len() && 0 < (#[trigger] peaks[i]).bits
                    < 0x7FF0_0000_0000_0000 implies exists|j: int|
                0 <= j < peaks.len() && (#[trigger] peaks[j]).bits == 0x7FF0_0000_0000_0000 by {
                assert(loudest.bits == 0x7FF0_0000_0000_0000);
                assert(peaks.contains(loudest));
            }
        }
    }
}

} // verus!
