//! Lengths and numbers come out as binary64 arithmetic gives them.

use audio_viewer::analysis::AudioMetadata;
use audio_viewer::display::{
    format_db, format_dc_offsets, format_duration, format_duration_compact, format_file_size,
    format_near_clipped, format_sample_rate, metadata_description,
};
use audio_viewer::duration::Duration;

/// Numbers that are spread over the whole range.
struct Numbers {
    state: u64,
}

impl Numbers {
    fn new() -> Self {
        Numbers { state: 0x9E37_79B9_7F4A_7C15 }
    }

    fn next(&mut self) -> u64 {
        self.state ^= self.state << 13;
        self.state ^= self.state >> 7;
        self.state ^= self.state << 17;
        self.state >> (self.state % 61)
    }
}

fn quotient_nanos(count: u64, per_second: u64) -> u128 {
    std::time::Duration::from_secs_f64(count as f64 / per_second as f64).as_nanos()
}

#[test]
fn quotients_are_rounded_as_binary64_numbers() {
    let mut numbers = Numbers::new();
    for _ in 0..200_000 {
        let count = numbers.next();
        let per_second = numbers.next() + 1;
        if per_second == 1 && count >= 0xFFFF_FFFF_FFFF_FC00 {
            continue;
        }
        assert_eq!(
            Duration::from_quotient(count, per_second).as_nanos(),
            quotient_nanos(count, per_second),
            "{count} / {per_second}"
        );
    }
}

#[test]
fn quotients_between_two_nanoseconds_follow_the_binary64_number() {
    for rate in [1_024u64, 384_000, 192_000, 96_000, 48_000, 44_100, 22_050, 11_025, 8_000, 7] {
        for count in 0..20_000u64 {
            assert_eq!(
                Duration::from_quotient(count, rate).as_nanos(),
                quotient_nanos(count, rate),
                "{count} / {rate}"
            );
        }
    }
}

#[test]
fn the_longest_quotient_is_in_range() {
    let longest = 0xFFFF_FFFF_FFFF_FBFF;
    assert_eq!(Duration::from_quotient(longest, 1).as_nanos(), quotient_nanos(longest, 1));
    assert_eq!(Duration::from_quotient(u64::MAX, 2).as_nanos(), quotient_nanos(u64::MAX, 2));
    assert_eq!(Duration::from_quotient(u64::MAX, u64::MAX).as_nanos(), 1_000_000_000);
}

#[test]
fn whole_seconds_are_exact() {
    for seconds in [0u64, 1, 59, 60, 3_600, 86_400] {
        assert_eq!(Duration::from_quotient(seconds * 48_000, 48_000), Duration::from_secs(seconds));
    }
    assert_eq!(Duration::from_quotient(0, 44_100), Duration::zero());
}

#[test]
fn sample_rates_are_written_as_numbers_with_one_place() {
    let mut numbers = Numbers::new();
    for step in 0..100_000u32 {
        for rate in [step, numbers.next() as u32] {
            let expected = if rate % 1_000 == 0 {
                format!("{} kHz", rate / 1_000)
            } else {
                format!("{:.1} kHz", rate as f64 / 1_000.0)
            };
            assert_eq!(format_sample_rate(rate), expected);
        }
    }
    assert_eq!(format_sample_rate(22_050), "22.1 kHz");
    assert_eq!(format_sample_rate(0), "0 kHz");
}

#[test]
fn file_sizes_are_written_as_numbers_with_one_place() {
    let mut numbers = Numbers::new();
    for step in 0..100_000u64 {
        for bytes in [step * 13, step * 131_072, numbers.next(), u64::MAX - step] {
            let number = bytes as f64;
            let expected = if number >= 1024.0 * 1024.0 {
                format!("{:.1} MiB", number / (1024.0 * 1024.0))
            } else if number >= 1024.0 {
                format!("{:.1} KiB", number / 1024.0)
            } else {
                format!("{bytes} B")
            };
            assert_eq!(format_file_size(bytes), expected);
        }
    }
    assert_eq!(format_file_size(1_023), "1023 B");
    assert_eq!(format_file_size(1_024), "1.0 KiB");
    assert_eq!(format_file_size(1_048_575), "1024.0 KiB");
    assert_eq!(format_file_size(1_310_720), "1.2 MiB");
}

#[test]
fn short_lengths_are_written_in_seconds_with_two_places() {
    let mut numbers = Numbers::new();
    for step in 0..100_000u64 {
        for nanos in [step * 100_000, step * 5_000_000 % 10_000_000_000, numbers.next() % 10_000_000_000] {
            let span = std::time::Duration::from_nanos(nanos);
            assert_eq!(
                format_duration_compact(Duration::from_nanos(nanos as u128)),
                format!("{:.2} s", span.as_secs_f64()),
                "{nanos} ns"
            );
        }
    }
    assert_eq!(format_duration_compact(Duration::from_millis(5)), "0.01 s");
    assert_eq!(format_duration_compact(Duration::from_millis(15)), "0.01 s");
    assert_eq!(format_duration_compact(Duration::from_millis(9_999)), "10.00 s");
    assert_eq!(format_duration_compact(Duration::from_secs(10)), "0:10");
}

#[test]
fn shares_are_written_as_percentages_with_three_places() {
    let mut numbers = Numbers::new();
    for _ in 0..100_000 {
        let whole = numbers.next() as usize;
        let part = numbers.next() as usize;
        let share = if whole == 0 { 0.0 } else { part as f64 * 100.0 / whole as f64 };
        assert_eq!(format_near_clipped(part, whole), format!("{part} ({share:.3}%)"));
    }
    assert_eq!(format_near_clipped(0, 0), "0 (0.000%)");
    assert_eq!(format_near_clipped(1, 8_000), "1 (0.013%)");
}

#[test]
fn lengths_are_written_as_minutes_and_seconds() {
    assert_eq!(format_duration(Duration::zero(), false), "0:00");
    assert_eq!(format_duration(Duration::from_secs(61), false), "1:01");
    assert_eq!(format_duration(Duration::from_secs(3_599), true), "59:59.000");
    assert_eq!(format_duration(Duration::from_secs(3_600), true), "1:00:00");
    assert_eq!(format_duration(Duration::from_millis(59_999), false), "0:59");
    assert_eq!(format_duration(Duration::from_secs(u64::MAX), false), "5124095576030431:00:15");
}

#[test]
fn levels_are_written_with_their_unit() {
    assert_eq!(format_db(Some("-12.0"), "dBFS"), "-12.0 dBFS");
    assert_eq!(format_db(None, "LUFS"), "Unavailable LUFS");
}

#[test]
fn offsets_are_numbered_from_one() {
    assert_eq!(format_dc_offsets(&vec![]), "");
    assert_eq!(format_dc_offsets(&vec!["+0.100".to_string()]), "Ch1 +0.100%");
    assert_eq!(
        format_dc_offsets(&vec!["+0.100".to_string(), "-0.002".to_string()]),
        "Ch1 +0.100% • Ch2 -0.002%"
    );
}

#[test]
fn formats_audio_metadata_for_display() {
    assert_eq!(format_sample_rate(44_100), "44.1 kHz");
    assert_eq!(format_sample_rate(48_000), "48 kHz");
    assert_eq!(format_duration(Duration::from_secs(3_751), false), "1:02:31");
    assert_eq!(format_duration(Duration::from_nanos(887_755_000), true), "0:00.887");
    assert_eq!(
        metadata_description(AudioMetadata {
            file_size: 8 * 1024 * 1024,
            duration: None,
            channels: Some(2),
            sample_rate: Some(44_100),
        }),
        "Stereo • 44.1 kHz • 8.0 MiB"
    );
}

#[test]
fn metadata_leave_out_what_is_not_known() {
    assert_eq!(metadata_description(AudioMetadata::loading(10)), "10 B");
    let mut metadata = AudioMetadata::loading(2_048);
    metadata.channels = Some(1);
    assert_eq!(metadata_description(metadata), "Mono • 2.0 KiB");
    metadata.channels = Some(6);
    metadata.sample_rate = Some(96_000);
    assert_eq!(metadata_description(metadata), "6 channels • 96 kHz • 2.0 KiB");
}

#[test]
fn more_counts_last_longer() {
    let mut numbers = Numbers::new();
    for _ in 0..50_000 {
        let count = numbers.next() >> 1;
        let more = count + numbers.next() % 5;
        let per_second = numbers.next() + 1;
        let early = Duration::from_quotient(count, per_second);
        let late = Duration::from_quotient(more, per_second);
        assert!(!late.is_shorter_than(&early), "{count}, {more} / {per_second}");
        if per_second <= 500_000_000 && count < more && more < 1 << 51 {
            assert!(early.is_shorter_than(&late), "{count}, {more} / {per_second}");
        }
    }
}
