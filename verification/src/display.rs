//! How lengths, sizes and levels are written for the reader.

use vstd::arithmetic::power2::{
    lemma2_to64, lemma2_to64_rest, lemma_pow2_adds, lemma_pow2_pos, lemma_pow2_strictly_increases,
    pow2,
};
use vstd::prelude::*;
use vstd::string::*;

use crate::analysis::AudioMetadata;
use crate::binary64::{
    div_counts, div_nearest, law_nearest_small, nearest, nearest_whole, quotient, round_scaled,
    round_whole, scale_rounded, Binary64, Dyadic, TWO_53,
};
use crate::duration::{law_scaled_quotients_are_near, Duration, NANOS_PER_SEC};
use crate::text::{decimal, digits, join, joined, push_decimal, push_digits, texts};

verus! {

/// Bytes in one KiB.
pub const KIB: u64 = 0x400;

/// Bytes in one MiB.
pub const MIB: u64 = 0x10_0000;

/// A number with one decimal place.
pub open spec fn with_one_place(x: Dyadic) -> Seq<char> {
    decimal(round_scaled(x, 10) / 10) + "."@ + digits(round_scaled(x, 10), 1)
}

/// A number with two decimal places.
pub open spec fn with_two_places(x: Dyadic) -> Seq<char> {
    decimal(round_scaled(x, 100) / 100) + "."@ + digits(round_scaled(x, 100), 2)
}

/// A number with three decimal places.
pub open spec fn with_three_places(x: Dyadic) -> Seq<char> {
    decimal(round_scaled(x, 1_000) / 1_000) + "."@ + digits(round_scaled(x, 1_000), 3)
}

/// Appends `scaled / 10^places` with `places` decimal places; `unit` is `10^places`.
fn push_fixed(text: &mut String, scaled: u128, unit: u128, places: u32)
    requires
        unit > 0,
    ensures
        final(text)@ == old(text)@ + (decimal(scaled as nat / unit as nat) + "."@ + digits(
            scaled as nat,
            places as nat,
        )),
{
    push_decimal(text, scaled / unit);
    text.append(".");
    push_digits(text, scaled, places);
    assert(text@ =~= old(text)@ + (decimal(scaled as nat / unit as nat) + "."@ + digits(
        scaled as nat,
        places as nat,
    )));
}

/// How a sample rate is written.
pub open spec fn sample_rate_text(sample_rate: nat) -> Seq<char> {
    if sample_rate % 1_000 == 0 {
        decimal(sample_rate / 1_000) + " kHz"@
    } else {
        with_one_place(quotient(sample_rate, 1_000)) + " kHz"@
    }
}

/// Writes a sample rate in kHz: a whole number of them where it is one, else with one
/// decimal place.
pub fn format_sample_rate(sample_rate: u32) -> (text: String)
    ensures
        text@ == sample_rate_text(sample_rate as nat),
{
    let mut text = String::new();
    if sample_rate % 1_000 == 0 {
        push_decimal(&mut text, (sample_rate / 1_000) as u128);
    } else {
        let kilohertz = div_counts(sample_rate as u128, 1_000);
        push_fixed(&mut text, scale_rounded(kilohertz, 10), 10, 1);
    }
    text.append(" kHz");
    assert(text@ =~= sample_rate_text(sample_rate as nat));
    text
}

/// How the size of a file is written.
pub open spec fn file_size_text(bytes: nat) -> Seq<char> {
    if bytes >= MIB {
        with_one_place(quotient(bytes, MIB as nat)) + " MiB"@
    } else if bytes >= KIB {
        with_one_place(quotient(bytes, KIB as nat)) + " KiB"@
    } else {
        decimal(bytes) + " B"@
    }
}

/// Writes the size of a file in MiB or KiB with one decimal place, or in bytes where it
/// is less than one KiB.
pub fn format_file_size(bytes: u64) -> (text: String)
    ensures
        text@ == file_size_text(bytes as nat),
{
    let mut text = String::new();
    if bytes >= MIB {
        let mebibytes = div_counts(bytes as u128, MIB as u128);
        push_fixed(&mut text, scale_rounded(mebibytes, 10), 10, 1);
        text.append(" MiB");
    } else if bytes >= KIB {
        let kibibytes = div_counts(bytes as u128, KIB as u128);
        push_fixed(&mut text, scale_rounded(kibibytes, 10), 10, 1);
        text.append(" KiB");
    } else {
        push_decimal(&mut text, bytes as u128);
        text.append(" B");
    }
    assert(text@ =~= file_size_text(bytes as nat));
    text
}

/// How a length of `nanos` nanoseconds is written.
pub open spec fn duration_text(nanos: nat, show_milliseconds: bool) -> Seq<char> {
    let total = nanos / NANOS_PER_SEC as nat;
    let hours = total / 3_600;
    let minutes = total / 60;
    let seconds = total % 60;
    if hours > 0 {
        decimal(hours) + ":"@ + digits(minutes % 60, 2) + ":"@ + digits(seconds, 2)
    } else if show_milliseconds {
        decimal(minutes) + ":"@ + digits(seconds, 2) + "."@ + digits(
            nanos % NANOS_PER_SEC as nat / 1_000_000,
            3,
        )
    } else {
        decimal(minutes) + ":"@ + digits(seconds, 2)
    }
}

/// Writes a length as minutes and seconds, with hours in front where there are any, or
/// with milliseconds behind where they are wanted and there are no hours. What is left
/// out is cut off.
pub fn format_duration(duration: Duration, show_milliseconds: bool) -> (text: String)
    ensures
        text@ == duration_text(duration@, show_milliseconds),
{
    let total: u64 = duration.as_secs();
    let hours: u64 = total / 3_600;
    let minutes: u64 = total / 60;
    let seconds: u64 = total % 60;
    let mut text = String::new();
    if hours > 0 {
        push_decimal(&mut text, hours as u128);
        text.append(":");
        push_digits(&mut text, (minutes % 60) as u128, 2);
        text.append(":");
        push_digits(&mut text, seconds as u128, 2);
    } else {
        push_decimal(&mut text, minutes as u128);
        text.append(":");
        push_digits(&mut text, seconds as u128, 2);
        if show_milliseconds {
            text.append(".");
            push_digits(&mut text, duration.subsec_millis() as u128, 3);
        }
    }
    assert(text@ =~= duration_text(duration@, show_milliseconds));
    text
}

/// A length in seconds as a binary64 number: its fraction of a second is rounded, and
/// then the sum with its whole seconds.
pub open spec fn seconds_of(nanos: nat) -> Dyadic {
    let fraction = nearest(nanos % NANOS_PER_SEC as nat, NANOS_PER_SEC as nat);
    Dyadic {
        significand: nearest_whole(
            nanos / NANOS_PER_SEC as nat * pow2(fraction.shift as nat) + fraction.significand,
        ),
        shift: fraction.shift,
    }
}

/// How a short length of `nanos` nanoseconds is written.
pub open spec fn compact_duration_text(nanos: nat) -> Seq<char> {
    if nanos < 10 * NANOS_PER_SEC {
        with_two_places(seconds_of(nanos)) + " s"@
    } else {
        duration_text(nanos, false)
    }
}

/// The length in seconds as a binary64 number.
fn seconds_rounded(duration: Duration) -> (seconds: Binary64)
    requires
        duration@ < 10 * NANOS_PER_SEC,
    ensures
        seconds@ == seconds_of(duration@),
        0 <= seconds.shift < 128,
        seconds.significand < 0x100_0000_0000_0000_0000_0000,
{
    let whole: u128 = duration.as_secs() as u128;
    let nanos: u128 = duration.subsec_nanos() as u128;
    let fraction = div_nearest(nanos, NANOS_PER_SEC);
    let ghost shift = fraction@.shift;
    proof {
        lemma2_to64();
        lemma2_to64_rest();
        lemma_pow2_adds(20, 63);
        assert(pow2(83) == 0x10_0000 * 0x8000_0000_0000_0000);
        if nanos > 0 {
            law_nearest_small(nanos as nat, NANOS_PER_SEC as nat);
            let power = pow2(shift as nat);
            assert(power <= nanos * power) by (nonlinear_arith)
                requires
                    nanos >= 1,
            ;
            if shift > 83 {
                lemma_pow2_strictly_increases(83, shift as nat);
            }
        }
        assert(0 <= shift <= 83);
        if shift < 83 {
            lemma_pow2_strictly_increases(shift as nat, 83);
        }
    }
    let mut power: u128 = 1;
    let mut done: i32 = 0;
    while done < fraction.shift
        invariant
            0 <= done <= fraction.shift <= 83,
            power == pow2(done as nat),
            pow2(83) == 0x10_0000 * 0x8000_0000_0000_0000,
        decreases fraction.shift - done,
    {
        proof {
            lemma_pow2_adds(done as nat, 1);
            lemma2_to64();
            if done + 1 < 83 {
                lemma_pow2_strictly_increases((done + 1) as nat, 83);
            }
        }
        power = power * 2;
        done = done + 1;
    }
    proof {
        assert(whole < 10);
        assert(whole * power <= 10 * pow2(83)) by (nonlinear_arith)
            requires
                whole < 10,
                power <= pow2(83),
        ;
    }
    Binary64 {
        significand: round_whole(whole * power + fraction.significand),
        shift: fraction.shift,
    }
}

/// Writes a length below ten seconds in seconds with two decimal places, and a longer
/// one as minutes and seconds.
pub fn format_duration_compact(duration: Duration) -> (text: String)
    ensures
        text@ == compact_duration_text(duration@),
{
    if !duration.is_shorter_than(&Duration::from_secs(10)) {
        return format_duration(duration, false);
    }
    let seconds = seconds_rounded(duration);
    let mut text = String::new();
    push_fixed(&mut text, scale_rounded(seconds, 100), 100, 2);
    text.append(" s");
    assert(text@ =~= compact_duration_text(duration@));
    text
}

/// How a number of channels is written.
pub open spec fn channels_text(channels: nat) -> Seq<char> {
    if channels == 1 {
        "Mono"@
    } else if channels == 2 {
        "Stereo"@
    } else {
        decimal(channels) + " channels"@
    }
}

/// Writes a number of channels.
fn format_channels(channels: u16) -> (text: String)
    ensures
        text@ == channels_text(channels as nat),
{
    let mut text = String::new();
    if channels == 1 {
        text.append("Mono");
    } else if channels == 2 {
        text.append("Stereo");
    } else {
        push_decimal(&mut text, channels as u128);
        text.append(" channels");
    }
    assert(text@ =~= channels_text(channels as nat));
    text
}

/// What is known of a file, in parts: its channels and its sample rate where they are
/// known, and its size.
pub open spec fn metadata_parts(metadata: AudioMetadata) -> Seq<Seq<char>> {
    let channels = match metadata.channels {
        Some(channels) => seq![channels_text(channels as nat)],
        None => Seq::empty(),
    };
    let sample_rate = match metadata.sample_rate {
        Some(sample_rate) => seq![sample_rate_text(sample_rate as nat)],
        None => Seq::empty(),
    };
    channels + sample_rate + seq![file_size_text(metadata.file_size as nat)]
}

/// Describes a file in one line.
pub fn metadata_description(metadata: AudioMetadata) -> (text: String)
    ensures
        text@ == joined(metadata_parts(metadata), " • "@),
{
    let mut parts: Vec<String> = Vec::new();
    if let Some(channels) = metadata.channels {
        parts.push(format_channels(channels));
    }
    if let Some(sample_rate) = metadata.sample_rate {
        parts.push(format_sample_rate(sample_rate));
    }
    parts.push(format_file_size(metadata.file_size));
    assert(texts(parts@) =~= metadata_parts(metadata));
    join(&parts, " • ")
}

/// How a level is written, given its number as text where it is known.
pub open spec fn level_text(number: Option<Seq<char>>, unit: Seq<char>) -> Seq<char> {
    match number {
        Some(number) => number + " "@ + unit,
        None => "Unavailable "@ + unit,
    }
}

/// Writes a level with its unit, given its number as text where it is known.
pub fn format_db(number: Option<&str>, unit: &str) -> (text: String)
    ensures
        text@ == level_text(
            match number {
                Some(number) => Some(number@),
                None => None,
            },
            unit@,
        ),
{
    let mut text = String::new();
    match number {
        Some(number) => {
            text.append(number);
            text.append(" ");
        },
        None => {
            text.append("Unavailable ");
        },
    }
    text.append(unit);
    assert(text@ =~= level_text(
        match number {
            Some(number) => Some(number@),
            None => None,
        },
        unit@,
    ));
    text
}

/// The share of `part` in `whole` as a percentage, in binary64 arithmetic; nothing has
/// no share.
pub open spec fn percentage(part: nat, whole: nat) -> Dyadic {
    if whole == 0 {
        Dyadic { significand: 0, shift: 0 }
    } else {
        nearest(nearest_whole(nearest_whole(part) * 100), nearest_whole(whole))
    }
}

/// How a number of samples and their share are written.
pub open spec fn share_text(part: nat, whole: nat) -> Seq<char> {
    decimal(part) + " ("@ + with_three_places(percentage(part, whole)) + "%)"@
}

/// Writes how many of `whole` samples come near full scale, and what share that is.
pub fn format_near_clipped(part: usize, whole: usize) -> (text: String)
    ensures
        text@ == share_text(part as nat, whole as nat),
{
    let share = if whole == 0 {
        Binary64 { significand: 0, shift: 0 }
    } else {
        let hundredfold: u128 = round_whole(round_whole(part as u128) * 100);
        let divisor: u128 = round_whole(whole as u128);
        div_nearest(hundredfold, divisor)
    };
    let mut text = String::new();
    push_decimal(&mut text, part as u128);
    text.append(" (");
    push_fixed(&mut text, scale_rounded(share, 1_000), 1_000, 3);
    text.append("%)");
    assert(text@ =~= share_text(part as nat, whole as nat));
    text
}

/// The texts of the channels' offsets, numbered from one.
pub open spec fn offset_parts(offsets: Seq<Seq<char>>) -> Seq<Seq<char>> {
    Seq::new(
        offsets.len(),
        |i: int| "Ch"@ + decimal((i + 1) as nat) + " "@ + offsets[i] + "%"@,
    )
}

/// Writes the offsets of the channels in one line, given the percentage of each as text.
pub fn format_dc_offsets(offsets: &Vec<String>) -> (text: String)
    ensures
        text@ == joined(offset_parts(texts(offsets@)), " • "@),
{
    let mut parts: Vec<String> = Vec::new();
    let mut index: usize = 0;
    while index < offsets.len()
        invariant
            index <= offsets@.len(),
            texts(parts@) == offset_parts(texts(offsets@)).take(index as int),
        decreases offsets@.len() - index,
    {
        let mut part = String::new();
        part.append("Ch");
        push_decimal(&mut part, index as u128 + 1);
        part.append(" ");
        part.append(offsets[index].as_str());
        part.append("%");
        assert(part@ =~= offset_parts(texts(offsets@))[index as int]);
        let ghost before = parts@;
        parts.push(part);
        assert(texts(parts@) =~= texts(before).push(part@));
        index = index + 1;
        assert(texts(parts@) =~= offset_parts(texts(offsets@)).take(index as int));
    }
    assert(offset_parts(texts(offsets@)).take(index as int) =~= offset_parts(texts(offsets@)));
    join(&parts, " • ")
}

/// A length is written in its own hours, minutes, seconds and milliseconds: the hours only
/// where there are any, and the milliseconds only where they are wanted and there are none.
/// The minutes have two digits behind hours, the seconds always, and the milliseconds three.
pub proof fn law_lengths_are_written_in_their_parts(
    hours: nat,
    minutes: nat,
    seconds: nat,
    millis: nat,
    rest: nat,
    show_milliseconds: bool,
)
    requires
        minutes < 60,
        seconds < 60,
        millis < 1_000,
        rest < 1_000_000,
    ensures
        ({
            let nanos = ((hours * 3_600 + minutes * 60 + seconds) * 1_000 + millis) * 1_000_000
                + rest;
            let text = duration_text(nanos, show_milliseconds);
            &&& hours > 0 ==> text == decimal(hours) + ":"@ + digits(minutes, 2) + ":"@ + digits(
                seconds,
                2,
            )
            &&& hours == 0 && show_milliseconds ==> text == decimal(minutes) + ":"@ + digits(
                seconds,
                2,
            ) + "."@ + digits(millis, 3)
            &&& hours == 0 && !show_milliseconds ==> text == decimal(minutes) + ":"@ + digits(
                seconds,
                2,
            )
            &&& nanos >= 10_000_000_000 ==> compact_duration_text(nanos) == duration_text(
                nanos,
                false,
            )
        }),
{
    let total = hours * 3_600 + minutes * 60 + seconds;
    let nanos = (total * 1_000 + millis) * 1_000_000 + rest;
    assert(nanos / NANOS_PER_SEC as nat == total);
    assert(nanos % NANOS_PER_SEC as nat == millis * 1_000_000 + rest);
    assert(nanos % NANOS_PER_SEC as nat / 1_000_000 == millis);
    assert(total / 3_600 == hours);
    assert(total / 60 % 60 == minutes);
    assert(total % 60 == seconds);
}

/// A sample rate of whole kHz is written as their number, and any other to the nearest tenth
/// of a kHz, but for one part in `2^53`.
pub proof fn law_sample_rates_are_written_in_khz(sample_rate: nat)
    requires
        sample_rate < TWO_53,
    ensures
        sample_rate % 1_000 == 0 ==> sample_rate_text(sample_rate) == decimal(sample_rate / 1_000)
            + " kHz"@,
        sample_rate % 1_000 != 0 ==> exists|tenths: nat|
            #![trigger decimal(tenths / 10)]
            {
                let unit = 0x20_0000_0000_0000int;
                &&& sample_rate_text(sample_rate) == decimal(tenths / 10) + "."@ + digits(tenths, 1)
                    + " kHz"@
                &&& 2 * unit * (tenths * 1_000) <= 2 * unit * (10 * sample_rate) + 20 * sample_rate
                    + unit * 1_000
                &&& 2 * unit * (10 * sample_rate) <= 2 * unit * (tenths * 1_000) + 20 * sample_rate
                    + unit * 1_000
            },
{
    law_scaled_quotients_are_near(sample_rate, 1_000, 10);
    let tenths = round_scaled(quotient(sample_rate, 1_000), 10);
    assert(decimal(tenths / 10) + "."@ + digits(tenths, 1) == with_one_place(
        quotient(sample_rate, 1_000),
    ));
}

/// The size of a file is written in bytes below 1024 of them, in KiB below 1024 of those, and
/// from there on in MiB: KiB and MiB to the nearest tenth, but for one part in `2^53`.
pub proof fn law_file_sizes_are_written_in_their_unit(bytes: nat)
    requires
        bytes < TWO_53,
    ensures
        bytes < 1_024 ==> file_size_text(bytes) == decimal(bytes) + " B"@,
        bytes >= 1_024 ==> exists|tenths: nat|
            #![trigger decimal(tenths / 10)]
            {
                let unit = 0x20_0000_0000_0000int;
                let size: int = if bytes < 1_048_576 {
                    1_024
                } else {
                    1_048_576
                };
                &&& file_size_text(bytes) == decimal(tenths / 10) + "."@ + digits(tenths, 1) + (
                if bytes < 1_048_576 {
                    " KiB"@
                } else {
                    " MiB"@
                })
                &&& 2 * unit * (tenths * size) <= 2 * unit * (10 * bytes) + 20 * bytes + unit * size
                &&& 2 * unit * (10 * bytes) <= 2 * unit * (tenths * size) + 20 * bytes + unit * size
            },
{
    if bytes >= 1_024 {
        let size: nat = if bytes < 1_048_576 {
            1_024
        } else {
            1_048_576
        };
        law_scaled_quotients_are_near(bytes, size, 10);
        let tenths = round_scaled(quotient(bytes, size), 10);
        assert(decimal(tenths / 10) + "."@ + digits(tenths, 1) == with_one_place(
            quotient(bytes, size),
        ));
    }
}

/// The share of samples is written to the nearest thousandth of a percent, but for one part
/// in `2^53`, behind their number; of no samples it is zero.
pub proof fn law_shares_are_written_in_percent(part: nat, whole: nat)
    requires
        100 * part < TWO_53,
        whole < TWO_53,
    ensures
        exists|thousandths: nat|
            #![trigger decimal(thousandths / 1_000)]
            {
                let unit = 0x20_0000_0000_0000int;
                let exact = 100_000 * part;
                &&& share_text(part, whole) == decimal(part) + " ("@ + (decimal(
                    thousandths / 1_000,
                ) + "."@ + digits(thousandths, 3)) + "%)"@
                &&& whole == 0 ==> thousandths == 0
                &&& whole > 0 ==> 2 * unit * (thousandths * whole) <= 2 * unit * exact + 2 * exact
                    + unit * whole
                &&& whole > 0 ==> 2 * unit * exact <= 2 * unit * (thousandths * whole) + 2 * exact
                    + unit * whole
            },
{
    let share = percentage(part, whole);
    let thousandths = round_scaled(share, 1_000);
    if whole > 0 {
        law_scaled_quotients_are_near(part * 100, whole, 1_000);
        assert(quotient(part * 100, whole) == share);
        assert(1_000 * (part * 100) == 100_000 * part);
    } else {
        lemma2_to64();
        assert(thousandths == 0);
    }
    assert(decimal(thousandths / 1_000) + "."@ + digits(thousandths, 3) == with_three_places(
        share,
    ));
}

/// One channel and two have names of their own; any other number is written out.
pub proof fn law_channels_are_named(channels: nat)
    ensures
        channels != 1 && channels != 2 ==> channels_text(channels) == decimal(channels)
            + " channels"@,
        channels == 1 ==> channels_text(channels) == "Mono"@,
        channels == 2 ==> channels_text(channels) == "Stereo"@,
{
}

/// A file is described by its channels, its sample rate and its size, in this order, with
/// dots between; what is not known is left out, along with its dot.
pub proof fn law_files_are_described_in_order(metadata: AudioMetadata)
    ensures
        ({
            let text = joined(metadata_parts(metadata), " • "@);
            let size = file_size_text(metadata.file_size as nat);
            match (metadata.channels, metadata.sample_rate) {
                (Some(channels), Some(rate)) => text == channels_text(channels as nat) + " • "@
                    + sample_rate_text(rate as nat) + " • "@ + size,
                (Some(channels), None) => text == channels_text(channels as nat) + " • "@ + size,
                (None, Some(rate)) => text == sample_rate_text(rate as nat) + " • "@ + size,
                (None, None) => text == size,
            }
        }),
{
    reveal_with_fuel(joined, 4);
    let parts = metadata_parts(metadata);
    if parts.len() > 1 {
        assert(parts.drop_last().len() == parts.len() - 1);
    }
}

/// The offset of each channel is written behind its number, which counts from one.
pub proof fn law_offsets_are_numbered(offsets: Seq<Seq<char>>, channel: int)
    requires
        0 <= channel < offsets.len(),
    ensures
        offset_parts(offsets).len() == offsets.len(),
        offset_parts(offsets)[channel] == "Ch"@ + decimal((channel + 1) as nat) + " "@
            + offsets[channel] + "%"@,
{
}

/// A level is its number and its unit with a space between, or is said to be unavailable in
/// that unit.
pub proof fn law_levels_are_written_with_their_unit(number: Seq<char>, unit: Seq<char>)
    ensures
        level_text(Some(number), unit) == number + " "@ + unit,
        level_text(None, unit) == "Unavailable "@ + unit,
{
}

} // verus!
