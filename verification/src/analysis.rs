//! The analysis of one audio file, from its bytes and its decoded samples.

use vstd::arithmetic::div_mod::lemma_fundamental_div_mod;
use vstd::prelude::*;

use crate::duration::{nanos_of_quotient, Duration};
use crate::level::Level;
use crate::metrics::{
    active_part, active_samples, analyze_metrics, are_metrics, AudioMetrics, Measurements,
};
use crate::sample::Sample;
use crate::silence::{
    are_below, are_silence_ranges, law_silent_windows_are_below, segment_silence, silent_windows,
    SilenceRange,
};
use crate::wav::{wav_duration_from_bytes, wav_timing};
use crate::waveform::{extract_waveform, is_waveform, WaveformBucket};

verus! {

/// What is known of an audio file.
#[derive(Clone, Copy, Debug, PartialEq, Eq, Structural)]
pub struct AudioMetadata {
    pub file_size: u64,
    pub duration: Option<Duration>,
    pub channels: Option<u16>,
    pub sample_rate: Option<u32>,
}

impl AudioMetadata {
    /// What is known of a file before it has been analyzed: its size.
    pub fn loading(file_size: u64) -> (metadata: Self)
        ensures
            metadata == (AudioMetadata {
                file_size,
                duration: None,
                channels: None,
                sample_rate: None,
            }),
    {
        AudioMetadata { file_size, duration: None, channels: None, sample_rate: None }
    }
}

/// What a decoder made of an audio file.
#[derive(Clone, Debug)]
pub struct DecodedAudio {
    pub channels: u16,
    pub sample_rate: u32,
    /// The duration that the decoder reports, if it does.
    pub total_duration: Option<Duration>,
    /// The samples, frame by frame, with one sample for each channel.
    pub samples: Vec<Sample>,
}

impl DecodedAudio {
    /// The number of samples in a frame: at least one.
    pub open spec fn frame_size(self) -> nat {
        if self.channels == 0 {
            1
        } else {
            self.channels as nat
        }
    }

    /// The number of whole frames.
    pub open spec fn frames(self) -> nat {
        self.samples@.len() / self.frame_size()
    }

    /// Whether the time that the frames take is in the range of [`Duration`].
    pub open spec fn has_duration(self) -> bool {
        self.sample_rate > 0 && (self.frames() < 0xFFFF_FFFF_FFFF_FC00 || self.sample_rate > 1)
    }

    /// The number of samples in a frame: at least one.
    pub fn channel_count(&self) -> (count: usize)
        ensures
            count == self.frame_size(),
    {
        if self.channels == 0 {
            1
        } else {
            self.channels as usize
        }
    }

    /// The number of whole frames.
    pub fn frame_count(&self) -> (count: usize)
        ensures
            count == self.frames(),
    {
        self.samples.len() / self.channel_count()
    }
}

/// The nanoseconds that a file plays: what its WAV header says, else what the decoder
/// reports, else what the frames come to.
pub open spec fn duration_nanos(bytes: Seq<u8>, decoded: DecodedAudio) -> nat {
    match wav_timing(bytes) {
        Some((size, rate)) => nanos_of_quotient(size, rate),
        None => match decoded.total_duration {
            Some(reported) => reported@,
            None => nanos_of_quotient(decoded.frames(), decoded.sample_rate as nat),
        },
    }
}

/// Whether `metadata` describe the file.
pub open spec fn are_metadata(
    metadata: AudioMetadata,
    bytes: Seq<u8>,
    decoded: DecodedAudio,
) -> bool {
    &&& metadata.file_size == bytes.len()
    &&& metadata.duration is Some
    &&& metadata.duration->0@ == duration_nanos(bytes, decoded)
    &&& metadata.channels == Some(decoded.channels)
    &&& metadata.sample_rate == Some(decoded.sample_rate)
}

/// All that the analysis of a file gives.
#[derive(Clone, Debug)]
pub struct AudioAnalysis {
    pub metadata: AudioMetadata,
    pub waveform: Vec<WaveformBucket>,
    pub silence_ranges: Vec<SilenceRange>,
    pub metrics: AudioMetrics,
}

/// Which windows are active, given the level of each: those that are not below
/// `threshold`.
pub open spec fn are_active(levels: Seq<Option<Level>>, threshold: Level) -> Seq<bool> {
    are_below(levels, threshold).map_values(|silent: bool| !silent)
}

/// The samples whose loudness counts as that of active sound, given the level of each
/// window: those of the windows that are not silent.
pub fn samples_to_measure(
    decoded: &DecodedAudio,
    window_levels: &Vec<Option<Level>>,
    threshold: Level,
) -> (active: Vec<Sample>)
    requires
        decoded.has_duration(),
    ensures
        active@ == active_part(
            decoded.samples@,
            decoded.frame_size(),
            decoded.sample_rate as nat,
            are_active(window_levels@, threshold),
        ),
{
    let silent = silent_windows(window_levels, threshold);
    let (_, active) = segment_silence(&silent, decoded.frame_count(), decoded.sample_rate);
    active_samples(&decoded.samples, decoded.channel_count(), decoded.sample_rate, &active)
}

/// What is known of a file once it has been decoded.
fn describe(bytes: &[u8], decoded: &DecodedAudio) -> (metadata: AudioMetadata)
    requires
        decoded.has_duration(),
    ensures
        are_metadata(metadata, bytes@, *decoded),
{
    let duration = match wav_duration_from_bytes(bytes) {
        Some(duration) => duration,
        None => match decoded.total_duration {
            Some(duration) => duration,
            None => Duration::from_quotient(
                decoded.frame_count() as u64,
                decoded.sample_rate as u64,
            ),
        },
    };
    AudioMetadata {
        file_size: bytes.len() as u64,
        duration: Some(duration),
        channels: Some(decoded.channels),
        sample_rate: Some(decoded.sample_rate),
    }
}

/// Analyzes a decoded file. How loud each window and the whole sound is has been measured
/// on its samples; a window is silent below `silence_threshold`, and
/// `near_clip_threshold` is the magnitude from which a sample counts as nearly clipped.
pub fn analyze_audio(
    bytes: &[u8],
    decoded: &DecodedAudio,
    window_levels: &Vec<Option<Level>>,
    silence_threshold: Level,
    near_clip_threshold: Sample,
    measured: Measurements,
) -> (analysis: AudioAnalysis)
    requires
        decoded.has_duration(),
    ensures
        are_metadata(analysis.metadata, bytes@, *decoded),
        is_waveform(
            analysis.waveform@,
            decoded.samples@,
            decoded.frame_size(),
            decoded.frames(),
        ),
        are_silence_ranges(
            analysis.silence_ranges@,
            are_below(window_levels@, silence_threshold),
            decoded.frames(),
            decoded.sample_rate as nat,
        ),
        are_metrics(
            analysis.metrics,
            decoded.samples@,
            decoded.sample_rate as nat,
            decoded.frame_size(),
            analysis.silence_ranges@,
            near_clip_threshold,
            measured,
        ),
{
    let channel_count: usize = decoded.channel_count();
    let frame_count: usize = decoded.frame_count();
    let metadata = describe(bytes, decoded);
    let waveform = extract_waveform(&decoded.samples, channel_count, frame_count);
    let silent = silent_windows(window_levels, silence_threshold);
    let (silence_ranges, _) = segment_silence(&silent, frame_count, decoded.sample_rate);
    let metrics = analyze_metrics(
        &decoded.samples,
        decoded.sample_rate,
        channel_count,
        &silence_ranges,
        near_clip_threshold,
        measured,
    );
    AudioAnalysis { metadata, waveform, silence_ranges, metrics }
}

/// The duration of a file is what its WAV header says; only without one does what the decoder
/// reports count, and only without that what the frames come to. Its size is that of its
/// bytes, and its channels and its rate are those that were decoded.
pub proof fn law_the_header_says_how_long(
    metadata: AudioMetadata,
    bytes: Seq<u8>,
    decoded: DecodedAudio,
)
    requires
        are_metadata(metadata, bytes, decoded),
    ensures
        metadata.file_size == bytes.len(),
        metadata.channels == Some(decoded.channels),
        metadata.sample_rate == Some(decoded.sample_rate),
        metadata.duration is Some,
        wav_timing(bytes) matches Some(timing) ==> metadata.duration->0@ == nanos_of_quotient(
            timing.0,
            timing.1,
        ),
        wav_timing(bytes) is None ==> match decoded.total_duration {
            Some(reported) => metadata.duration->0@ == reported@,
            None => metadata.duration->0@ == nanos_of_quotient(
                decoded.frames(),
                decoded.sample_rate as nat,
            ),
        },
{
}

/// A frame has one sample for each channel, or one where no channel is named; what does not
/// fill a frame at the end counts for none.
pub proof fn law_frames_are_whole(decoded: DecodedAudio)
    ensures
        decoded.channels > 0 ==> decoded.frame_size() == decoded.channels,
        decoded.channels == 0 ==> decoded.frame_size() == 1,
        decoded.frames() * decoded.frame_size() <= decoded.samples@.len(),
        decoded.samples@.len() < (decoded.frames() + 1) * decoded.frame_size(),
{
    let len = decoded.samples@.len() as int;
    let size = decoded.frame_size() as int;
    lemma_fundamental_div_mod(len, size);
    let frames = len / size;
    assert(frames * size <= len < (frames + 1) * size) by (nonlinear_arith)
        requires
            len == size * frames + len % size,
            0 <= len % size < size,
    ;
}

/// A window is active exactly where it is not silent, and every window is one or the other.
pub proof fn law_windows_are_active_or_silent(
    levels: Seq<Option<Level>>,
    threshold: Level,
    window: int,
)
    requires
        0 <= window < levels.len(),
        0 < threshold.bits <= 0x7FF0_0000_0000_0000,
    ensures
        are_active(levels, threshold).len() == levels.len(),
        are_active(levels, threshold)[window] <==> !are_below(levels, threshold)[window],
        levels[window] matches Some(level) ==> level.bits <= 0x7FF0_0000_0000_0000 ==> (are_active(
            levels,
            threshold,
        )[window] <==> threshold.bits <= level.bits),
        levels[window] is None ==> !are_active(levels, threshold)[window],
{
    law_silent_windows_are_below(levels, threshold, window);
}

} // verus!
