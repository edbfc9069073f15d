//! Sounds are decoded, measured and analyzed from their bytes.

use std::io::Cursor;

use audio_viewer::analysis::{
    analyze_audio, samples_to_measure, AudioAnalysis, AudioMetadata, DecodedAudio,
};
use audio_viewer::duration::Duration;
use audio_viewer::level::{audible, loudest, Level};
use audio_viewer::metrics::{active_samples, count_reaching, Measurements};
use audio_viewer::sample::Sample;
use audio_viewer::silence::{
    segment_silence, silence_windows, silent_windows, summarize_silence, SilenceRange,
};
use audio_viewer::wav::wav_duration_from_bytes;
use audio_viewer::waveform::{extract_waveform, waveform_bars, WaveformBucket};
use ebur128::{EbuR128, Mode};
use rodio::{Decoder, Source};

fn pcm_wav(sample_rate: u32, channels: u16, samples: &[i16]) -> Vec<u8> {
    let bits_per_sample = 16u16;
    let block_align = channels * bits_per_sample / 8;
    let byte_rate = sample_rate * u32::from(block_align);
    let data_size = std::mem::size_of_val(samples) as u32;
    let riff_size = 36u32 + data_size;
    let mut wav = Vec::with_capacity(44 + data_size as usize);
    wav.extend_from_slice(b"RIFF");
    wav.extend_from_slice(&riff_size.to_le_bytes());
    wav.extend_from_slice(b"WAVE");
    wav.extend_from_slice(b"fmt ");
    wav.extend_from_slice(&16u32.to_le_bytes());
    wav.extend_from_slice(&1u16.to_le_bytes());
    wav.extend_from_slice(&channels.to_le_bytes());
    wav.extend_from_slice(&sample_rate.to_le_bytes());
    wav.extend_from_slice(&byte_rate.to_le_bytes());
    wav.extend_from_slice(&block_align.to_le_bytes());
    wav.extend_from_slice(&bits_per_sample.to_le_bytes());
    wav.extend_from_slice(b"data");
    wav.extend_from_slice(&data_size.to_le_bytes());
    for sample in samples {
        wav.extend_from_slice(&sample.to_le_bytes());
    }
    wav
}

fn decode(bytes: &[u8], format_hint: &str) -> DecodedAudio {
    let decoder = Decoder::builder()
        .with_data(Cursor::new(bytes.to_vec()))
        .with_byte_len(bytes.len() as u64)
        .with_hint(format_hint)
        .build();
    let decoder = match decoder {
        Ok(decoder) => decoder,
        Err(error) => panic!("test WAV should decode: {error}"),
    };
    DecodedAudio {
        channels: decoder.channels().get(),
        sample_rate: decoder.sample_rate().get(),
        total_duration: decoder
            .total_duration()
            .map(|duration| Duration::from_nanos(duration.as_nanos())),
        samples: decoder.map(|sample| Sample { bits: sample.to_bits() }).collect(),
    }
}

fn level(value: f64) -> Level {
    Level { bits: value.to_bits() }
}

fn value(level: Level) -> f64 {
    f64::from_bits(level.bits)
}

fn amplitude(sample: Sample) -> f32 {
    f32::from_bits(sample.bits)
}

fn sample(value: f32) -> Sample {
    Sample { bits: value.to_bits() }
}

fn rms(samples: &[Sample]) -> Option<Level> {
    if samples.is_empty() {
        return None;
    }
    let sum = samples.iter().map(|sample| f64::from(amplitude(*sample)).powi(2)).sum::<f64>();
    Some(level((sum / samples.len() as f64).sqrt()))
}

fn dbfs(level: Option<Level>) -> Option<f64> {
    level.map(|level| 20.0 * value(level).log10())
}

fn analyzed_wav(sample_rate: u32, channels: u16, samples: &[i16]) -> AudioAnalysis {
    let bytes = pcm_wav(sample_rate, channels, samples);
    let decoded = decode(&bytes, "wav");
    let channel_count = decoded.channel_count();
    let threshold = level(10_f64.powf(-50.0 / 20.0));
    let levels = silence_windows(decoded.samples.len(), decoded.sample_rate, channel_count)
        .into_iter()
        .map(|(start, end)| rms(&decoded.samples[start..end]))
        .collect::<Vec<_>>();
    let active = samples_to_measure(&decoded, &levels, threshold);

    let mut loudness = match EbuR128::new(
        channel_count as u32,
        decoded.sample_rate,
        Mode::I | Mode::SAMPLE_PEAK | Mode::TRUE_PEAK,
    ) {
        Ok(loudness) => loudness,
        Err(error) => panic!("meter: {error}"),
    };
    let frames = decoded.samples.iter().map(|sample| amplitude(*sample)).collect::<Vec<_>>();
    assert!(loudness.add_frames_f32(&frames).is_ok());
    let channels = 0..channel_count as u32;
    let measured = Measurements {
        active_rms: rms(&active),
        integrated_lufs: level(loudness.loudness_global().unwrap_or(f64::NAN)),
        sample_peaks: channels
            .clone()
            .map(|channel| level(loudness.sample_peak(channel).unwrap_or(f64::NAN)))
            .collect(),
        true_peaks: channels
            .clone()
            .map(|channel| level(loudness.true_peak(channel).unwrap_or(f64::NAN)))
            .collect(),
        dc_offsets: channels
            .map(|channel| {
                let sum = frames
                    .iter()
                    .skip(channel as usize)
                    .step_by(channel_count)
                    .map(|sample| f64::from(*sample))
                    .sum::<f64>();
                level(sum / decoded.frame_count() as f64)
            })
            .collect(),
    };
    let near_clip = sample(10_f32.powf(-0.1_f64 as f32 / 20.0));
    analyze_audio(&bytes, &decoded, &levels, threshold, near_clip, measured)
}

#[test]
fn computes_duration_from_available_wav_data_when_sizes_are_maxed() {
    let sample_rate = 24_000u32;
    let byte_rate = sample_rate * 2;
    let block_align = 2u16;
    let data_bytes = byte_rate as usize;
    let mut wav = Vec::new();
    wav.extend_from_slice(b"RIFF");
    wav.extend_from_slice(&u32::MAX.to_le_bytes());
    wav.extend_from_slice(b"WAVE");
    wav.extend_from_slice(b"fmt ");
    wav.extend_from_slice(&16u32.to_le_bytes());
    wav.extend_from_slice(&1u16.to_le_bytes());
    wav.extend_from_slice(&1u16.to_le_bytes());
    wav.extend_from_slice(&sample_rate.to_le_bytes());
    wav.extend_from_slice(&byte_rate.to_le_bytes());
    wav.extend_from_slice(&block_align.to_le_bytes());
    wav.extend_from_slice(&16u16.to_le_bytes());
    wav.extend_from_slice(b"data");
    wav.extend_from_slice(&u32::MAX.to_le_bytes());
    wav.resize(wav.len() + data_bytes, 0);

    assert_eq!(wav_duration_from_bytes(&wav), Some(Duration::from_secs(1)));
}

#[test]
fn waveform_is_signed_and_uses_absolute_full_scale() {
    let sample_rate = 8_000u32;
    let samples = (0..sample_rate)
        .map(|index| if index % 2 == 0 { 8_192 } else { -4_096 })
        .collect::<Vec<_>>();
    let analysis = analyzed_wav(sample_rate, 1, &samples);
    let minimum = analysis
        .waveform
        .iter()
        .map(|bucket| amplitude(bucket.minimum))
        .fold(0.0_f32, f32::min);
    let maximum = analysis
        .waveform
        .iter()
        .map(|bucket| amplitude(bucket.maximum))
        .fold(0.0_f32, f32::max);

    assert!(minimum < -0.12 && minimum > -0.13, "minimum was {minimum}");
    assert!(maximum > 0.24 && maximum < 0.26, "maximum was {maximum}");
    assert!(maximum < 0.5, "waveform must not be normalized");
}

#[test]
fn computes_active_rms_dc_and_near_clip_metrics() {
    let sample_rate = 8_000u32;
    let mut samples = vec![8_192_i16; sample_rate as usize];
    samples[0] = i16::MAX;
    let analysis = analyzed_wav(sample_rate, 1, &samples);
    let metrics = &analysis.metrics;

    assert!(dbfs(metrics.active_speech_rms).is_some_and(|value| value > -13.0 && value < -11.0));
    let offset = value(metrics.dc_offsets[0]);
    assert!(offset > 0.24 && offset < 0.26);
    assert_eq!(metrics.near_clipped_samples, 1);
    assert_eq!(metrics.total_samples, sample_rate as usize);
}

#[test]
fn separates_leading_trailing_and_internal_silence() {
    let sample_rate = 1_000u32;
    let mut samples = Vec::new();
    samples.extend(vec![0_i16; 100]);
    samples.extend(vec![8_192_i16; 200]);
    samples.extend(vec![0_i16; 100]);
    samples.extend(vec![-8_192_i16; 200]);
    samples.extend(vec![0_i16; 100]);
    let analysis = analyzed_wav(sample_rate, 1, &samples);
    let silence = &analysis.metrics.silence;

    assert_eq!(silence.leading, Duration::from_millis(100));
    assert_eq!(silence.trailing, Duration::from_millis(100));
    assert_eq!(silence.pause_count, 1);
    assert_eq!(silence.pause_total, Duration::from_millis(100));
    assert_eq!(silence.pause_longest, Duration::from_millis(100));
    assert_eq!(analysis.silence_ranges.len(), 3);
}

#[test]
fn preserves_single_window_internal_silence() {
    let sample_rate = 1_000u32;
    let mut samples = Vec::new();
    samples.extend(vec![8_192_i16; 100]);
    samples.extend(vec![0_i16; 20]);
    samples.extend(vec![-8_192_i16; 100]);
    let analysis = analyzed_wav(sample_rate, 1, &samples);
    let silence = &analysis.metrics.silence;

    assert_eq!(silence.leading, Duration::zero());
    assert_eq!(silence.trailing, Duration::zero());
    assert_eq!(silence.pause_count, 1);
    assert_eq!(silence.pause_total, Duration::from_millis(20));
    assert_eq!(silence.pause_longest, Duration::from_millis(20));
    assert_eq!(analysis.silence_ranges.len(), 1);
}

#[test]
fn wires_plausible_ebur128_results() {
    let sample_rate = 48_000u32;
    let samples = (0..sample_rate * 2)
        .map(|index| {
            let phase = index as f32 * 440.0 * std::f32::consts::TAU / sample_rate as f32;
            (phase.sin() * 0.25 * f32::from(i16::MAX)) as i16
        })
        .collect::<Vec<_>>();
    let analysis = analyzed_wav(sample_rate, 1, &samples);
    let metrics = &analysis.metrics;
    let sample_peak = dbfs(metrics.sample_peak);
    let true_peak = dbfs(metrics.true_peak);

    assert!(metrics
        .integrated_lufs
        .map(value)
        .is_some_and(|value| value > -20.0 && value < -10.0));
    assert!(sample_peak.is_some_and(|value| value > -13.0 && value < -11.0));
    assert!(true_peak.is_some_and(|value| value > -13.0 && value < -10.0));
    if let (Some(sample_peak), Some(true_peak)) = (sample_peak, true_peak) {
        assert!(true_peak + 0.1 >= sample_peak);
    }
}

#[test]
fn metadata_describe_the_decoded_file() {
    let analysis = analyzed_wav(8_000, 2, &[1_000; 8_000]);
    assert_eq!(
        analysis.metadata,
        AudioMetadata {
            file_size: 16_044,
            duration: Some(Duration::from_millis(500)),
            channels: Some(2),
            sample_rate: Some(8_000),
        }
    );
    assert_eq!(analysis.waveform.len(), 1_536);
    assert_eq!(analysis.metrics.dc_offsets.len(), 2);
}

#[test]
fn files_without_a_wav_header_last_as_long_as_the_decoder_says() {
    let measured = Measurements {
        active_rms: None,
        integrated_lufs: level(f64::NEG_INFINITY),
        sample_peaks: vec![level(0.0)],
        true_peaks: vec![level(0.0)],
        dc_offsets: vec![level(0.0)],
    };
    let mut decoded = DecodedAudio {
        channels: 1,
        sample_rate: 3,
        total_duration: Some(Duration::from_secs(7)),
        samples: vec![Sample::zero(); 1],
    };
    let reported = analyze_audio(
        b"OggS",
        &decoded,
        &vec![None],
        level(0.1),
        sample(0.9),
        measured.clone(),
    );
    assert_eq!(reported.metadata.duration, Some(Duration::from_secs(7)));
    assert_eq!(reported.metadata.file_size, 4);
    assert_eq!(reported.metrics.integrated_lufs, None);
    assert_eq!(reported.metrics.sample_peak, None);
    assert_eq!(reported.metrics.active_speech_rms, None);

    decoded.total_duration = None;
    let counted =
        analyze_audio(b"OggS", &decoded, &vec![None], level(0.1), sample(0.9), measured);
    assert_eq!(counted.metadata.duration, Some(Duration::from_nanos(333_333_333)));
}

#[test]
fn loading_knows_the_size_alone() {
    assert_eq!(
        AudioMetadata::loading(9),
        AudioMetadata { file_size: 9, duration: None, channels: None, sample_rate: None }
    );
}

fn chunk(tag: &[u8; 4], size: u32, data: &[u8]) -> Vec<u8> {
    let mut bytes = Vec::new();
    bytes.extend_from_slice(tag);
    bytes.extend_from_slice(&size.to_le_bytes());
    bytes.extend_from_slice(data);
    bytes
}

fn wave(chunks: &[Vec<u8>]) -> Vec<u8> {
    let mut bytes = b"RIFF\0\0\0\0WAVE".to_vec();
    for chunk in chunks {
        bytes.extend_from_slice(chunk);
    }
    bytes
}

fn format(tag: u16, byte_rate: u32, block_align: u16) -> Vec<u8> {
    let mut data = tag.to_le_bytes().to_vec();
    data.extend_from_slice(&[1, 0, 0, 0, 0, 0]);
    data.extend_from_slice(&byte_rate.to_le_bytes());
    data.extend_from_slice(&block_align.to_le_bytes());
    data.extend_from_slice(&[16, 0]);
    chunk(b"fmt ", 16, &data)
}

#[test]
fn wav_headers_are_read_chunk_by_chunk() {
    let data = chunk(b"data", 1_000, &[0; 1_000]);
    let second = Some(Duration::from_secs(1));
    assert_eq!(wav_duration_from_bytes(&wave(&[format(1, 1_000, 2), data.clone()])), second);
    // Chunks of odd length are padded.
    let odd = chunk(b"LIST", 3, &[1, 2, 3, 0]);
    assert_eq!(
        wav_duration_from_bytes(&wave(&[odd, format(1, 1_000, 2), data.clone()])),
        second
    );
    // Incomplete blocks do not count.
    assert_eq!(
        wav_duration_from_bytes(&wave(&[format(1, 1_000, 300), data.clone()])),
        Some(Duration::from_millis(900))
    );
    // The last usable format counts.
    assert_eq!(
        wav_duration_from_bytes(&wave(&[
            format(1, 1_000, 2),
            format(1, 2_000, 2),
            format(3, 4_000, 2),
            data.clone(),
        ])),
        Some(Duration::from_millis(500))
    );
    // What follows the data does not.
    assert_eq!(
        wav_duration_from_bytes(&wave(&[
            format(1, 1_000, 2),
            data.clone(),
            format(1, 1, 1),
            data.clone(),
        ])),
        second
    );
}

#[test]
fn other_headers_have_no_timing() {
    let data = chunk(b"data", 4, &[0; 4]);
    let good = wave(&[format(1, 1_000, 2), data.clone()]);
    assert!(wav_duration_from_bytes(&good).is_some());
    assert_eq!(wav_duration_from_bytes(b""), None);
    assert_eq!(wav_duration_from_bytes(b"RIFF\0\0\0\0WAV"), None);
    assert_eq!(wav_duration_from_bytes(b"RIFF\0\0\0\0WAVE"), None);
    let mut renamed = good.clone();
    renamed[0] = b'X';
    assert_eq!(wav_duration_from_bytes(&renamed), None);
    let mut renamed = good.clone();
    renamed[8] = b'X';
    assert_eq!(wav_duration_from_bytes(&renamed), None);
    assert_eq!(wav_duration_from_bytes(&wave(&[data.clone()])), None);
    assert_eq!(wav_duration_from_bytes(&wave(&[format(1, 1_000, 2)])), None);
    assert_eq!(wav_duration_from_bytes(&wave(&[format(3, 1_000, 2), data.clone()])), None);
    assert_eq!(wav_duration_from_bytes(&wave(&[format(1, 0, 2), data.clone()])), None);
    assert_eq!(wav_duration_from_bytes(&wave(&[format(1, 1_000, 0), data.clone()])), None);
    assert_eq!(
        wav_duration_from_bytes(&wave(&[chunk(b"fmt ", 8, &[1; 8]), data.clone()])),
        None
    );
    assert_eq!(
        wav_duration_from_bytes(&wave(&[chunk(b"LIST", u32::MAX, &[]), data])),
        None
    );
}

#[test]
fn samples_compare_like_the_numbers_they_stand_for() {
    let values = [
        0.0_f32,
        -0.0,
        1.0,
        -1.0,
        0.5,
        -0.25,
        f32::MIN_POSITIVE,
        f32::MAX,
        f32::INFINITY,
        f32::NEG_INFINITY,
        f32::NAN,
    ];
    for a in values {
        for b in values {
            let least = amplitude(sample(a).min(sample(b)));
            let greatest = amplitude(sample(a).max(sample(b)));
            assert!(least == a.min(b) || (a.is_nan() && b.is_nan() && least.is_nan()));
            assert!(greatest == a.max(b) || (a.is_nan() && b.is_nan() && greatest.is_nan()));
            assert_eq!(sample(a).reaches(sample(b)), a.abs() >= b);
        }
    }
}

#[test]
fn levels_compare_like_the_numbers_they_stand_for() {
    let values = [
        0.0_f64,
        -0.0,
        1.0,
        -1.0,
        0.5,
        -23.4,
        f64::MIN_POSITIVE,
        f64::MAX,
        f64::INFINITY,
        f64::NEG_INFINITY,
        f64::NAN,
    ];
    for a in values {
        assert_eq!(level(a).is_finite(), a.is_finite());
        assert_eq!(level(a).is_positive(), a > 0.0 && a.is_finite());
        assert_eq!(audible(Some(level(a))).is_some(), a > 0.0 && a.is_finite());
        for b in values {
            assert_eq!(level(a).is_below(level(b)), a < b);
            let greatest = value(level(a).max(level(b)));
            assert!(greatest == a.max(b) || (a.is_nan() && b.is_nan() && greatest.is_nan()));
        }
    }
    assert_eq!(audible(None), None);
    assert_eq!(loudest(&vec![]), None);
    assert_eq!(loudest(&vec![level(-3.0)]), Some(level(0.0)));
    assert_eq!(loudest(&vec![level(0.25), level(f64::NAN), level(0.5)]), Some(level(0.5)));
}

#[test]
fn waveforms_outline_the_samples_of_each_bucket() {
    assert_eq!(extract_waveform(&vec![], 2, 0).len(), 0);
    let samples = [0.5, -0.25, 0.75, 0.125, -1.0, -0.5].map(sample).to_vec();
    let buckets = extract_waveform(&samples, 2, 3);
    assert_eq!(
        buckets,
        vec![
            WaveformBucket { minimum: sample(-0.25), maximum: sample(0.5) },
            WaveformBucket { minimum: sample(0.0), maximum: sample(0.75) },
            WaveformBucket { minimum: sample(-1.0), maximum: sample(0.0) },
        ]
    );
    let long = (0..3_072).map(|index| sample(index as f32 / 4_096.0)).collect::<Vec<_>>();
    let buckets = extract_waveform(&long, 1, 3_072);
    assert_eq!(buckets.len(), 1_536);
    assert_eq!(buckets[1_535].maximum, sample(3_071.0 / 4_096.0));
    assert_eq!(buckets[1_535].minimum, sample(0.0));
    // Samples behind the last whole frame have no bucket.
    let odd = extract_waveform(&[1.0, 1.0, -1.0].map(sample).to_vec(), 2, 1);
    assert_eq!(odd, vec![WaveformBucket { minimum: sample(0.0), maximum: sample(1.0) }]);
}

#[test]
fn bars_outline_their_buckets() {
    let buckets = (1..=5)
        .map(|index| WaveformBucket {
            minimum: sample(-(index as f32)),
            maximum: sample(index as f32 / 2.0),
        })
        .collect::<Vec<_>>();
    let bars = waveform_bars(&buckets, 2);
    assert_eq!(
        bars,
        vec![
            WaveformBucket { minimum: sample(-2.0), maximum: sample(1.0) },
            WaveformBucket { minimum: sample(-5.0), maximum: sample(2.5) },
        ]
    );
    assert_eq!(waveform_bars(&buckets, 0).len(), 1);
    assert_eq!(waveform_bars(&buckets, 100), buckets);
    assert_eq!(waveform_bars(&vec![], 100).len(), 0);
}

#[test]
fn windows_cover_the_frames() {
    assert_eq!(silence_windows(250, 1_000, 2), vec![
        (0, 40),
        (40, 80),
        (80, 120),
        (120, 160),
        (160, 200),
        (200, 240),
        (240, 250),
    ]);
    assert_eq!(silence_windows(3, 1, 1), vec![(0, 1), (1, 2), (2, 3)]);
    assert_eq!(silence_windows(0, 48_000, 1), vec![]);
}

#[test]
fn windows_below_the_threshold_are_silent() {
    let levels = vec![
        Some(level(0.1)),
        Some(level(0.25)),
        Some(level(0.5)),
        None,
        Some(level(f64::NAN)),
    ];
    assert_eq!(
        silent_windows(&levels, level(0.25)),
        vec![true, false, false, true, false]
    );
}

#[test]
fn runs_of_silent_windows_make_ranges() {
    let (ranges, active) =
        segment_silence(&vec![true, true, false, true, false, true], 115, 1_000);
    assert_eq!(
        ranges,
        vec![
            SilenceRange { start: Duration::zero(), end: Duration::from_millis(40) },
            SilenceRange { start: Duration::from_millis(60), end: Duration::from_millis(80) },
            SilenceRange { start: Duration::from_millis(100), end: Duration::from_millis(115) },
        ]
    );
    assert_eq!(active, vec![false, false, true, false, true, false]);
    assert_eq!(ranges[2].duration(), Duration::from_millis(15));
    let backward =
        SilenceRange { start: Duration::from_millis(2), end: Duration::from_millis(1) };
    assert_eq!(backward.duration(), Duration::zero());
}

#[test]
fn silence_at_the_edges_is_no_pause() {
    let range = |start: u64, end: u64| SilenceRange {
        start: Duration::from_millis(start),
        end: Duration::from_millis(end),
    };
    let ranges = vec![range(0, 10), range(20, 50), range(60, 65), range(90, 100)];
    let summary = summarize_silence(&ranges, Duration::from_millis(100));
    assert_eq!(summary.leading, Duration::from_millis(10));
    assert_eq!(summary.trailing, Duration::from_millis(10));
    assert_eq!(summary.pause_count, 2);
    assert_eq!(summary.pause_total, Duration::from_millis(35));
    assert_eq!(summary.pause_longest, Duration::from_millis(30));

    let whole = summarize_silence(&vec![range(0, 100)], Duration::from_millis(100));
    assert_eq!(whole.leading, Duration::from_millis(100));
    assert_eq!(whole.trailing, Duration::from_millis(100));
    assert_eq!(whole.pause_count, 0);

    let none = summarize_silence(&vec![], Duration::from_millis(100));
    assert_eq!(none.leading, Duration::zero());
    assert_eq!(none.trailing, Duration::zero());
    assert_eq!(none.pause_longest, Duration::zero());
}

#[test]
fn active_samples_are_those_of_active_windows() {
    let samples = (0..10).map(|index| sample(index as f32)).collect::<Vec<_>>();
    let active = active_samples(&samples, 2, 100, &vec![false, true]);
    assert_eq!(active, [4.0, 5.0, 6.0, 7.0].map(sample).to_vec());
    // A frame that is cut short goes with the window that it would be in.
    let active = active_samples(&samples[..5].to_vec(), 2, 100, &vec![false, true]);
    assert_eq!(active, [4.0].map(sample).to_vec());
}

#[test]
fn samples_at_the_threshold_are_nearly_clipped() {
    let samples = [0.5, -0.5, 0.75, -1.0, f32::NAN, 0.25].map(sample).to_vec();
    assert_eq!(count_reaching(&samples, sample(0.5)), 4);
    assert_eq!(count_reaching(&samples, sample(f32::NAN)), 0);
}

#[test]
fn the_samples_to_measure_are_those_of_windows_that_are_not_silent() {
    let decoded = DecodedAudio {
        channels: 2,
        sample_rate: 100,
        total_duration: None,
        samples: (0..10).map(|index| sample(index as f32)).collect(),
    };
    let levels = vec![None, Some(level(0.5)), Some(level(0.1))];
    assert_eq!(
        samples_to_measure(&decoded, &levels, level(0.25)),
        [4.0, 5.0, 6.0, 7.0].map(sample).to_vec()
    );
}

#[test]
fn each_silence_is_counted_once() {
    // Every pattern of ten windows, the last of which is short.
    for pattern in 0..1_024u32 {
        let silent = (0..10).map(|window| pattern & (1 << window) != 0).collect::<Vec<_>>();
        let (ranges, _) = segment_silence(&silent, 185, 1_000);
        let total = Duration::from_millis(185);
        let summary = summarize_silence(&ranges, total);
        let leading = usize::from(!summary.leading.is_zero());
        let trailing = usize::from(!summary.trailing.is_zero());
        let whole = usize::from(
            ranges == vec![SilenceRange { start: Duration::zero(), end: total }],
        );
        assert_eq!(ranges.len() + whole, summary.pause_count + leading + trailing);
        let pauses = ranges
            .iter()
            .filter(|range| !range.start.is_zero() && range.end != total)
            .map(|range| range.duration().as_nanos());
        assert_eq!(summary.pause_total.as_nanos(), pauses.sum::<u128>());
    }
    // A sound that is rounded away has a silence that lasts no time.
    let (ranges, _) = segment_silence(&vec![true], 1, 4_000_000_000);
    let summary = summarize_silence(&ranges, Duration::from_quotient(1, 4_000_000_000));
    assert_eq!(ranges.len(), 1);
    assert!(summary.leading.is_zero() && summary.trailing.is_zero());
}
