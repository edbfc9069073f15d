//! The panel that shows the figures of a sound.

use vstd::prelude::*;
use vstd::string::*;

use crate::display::{
    compact_duration_text, format_db, format_dc_offsets, format_duration_compact,
    format_near_clipped, level_text, offset_parts, share_text,
};
use crate::level::Level;
use crate::metrics::AudioMetrics;
use crate::text::{decimal, joined, push_decimal, texts};

verus! {

/// The numbers of the levels as texts, in decibels and in percent. That of a level that a
/// sound does not have is not shown.
#[derive(Debug)]
pub struct LevelTexts {
    pub integrated_lufs: String,
    pub active_speech_rms: String,
    pub sample_peak: String,
    pub true_peak: String,
    /// The offset of each channel, with its sign.
    pub dc_offsets: Vec<String>,
}

/// A figure with its name.
#[derive(Debug)]
pub struct Card {
    pub label: &'static str,
    pub value: String,
}

impl View for Card {
    type V = (Seq<char>, Seq<char>);

    open spec fn view(&self) -> (Seq<char>, Seq<char>) {
        (self.label@, self.value@)
    }
}

/// What the panel shows.
#[derive(Debug)]
pub enum Panel {
    /// Why there are no figures.
    Status(String),
    /// The figures: levels, silences, and the rest.
    Figures { levels: Vec<Card>, silences: Vec<Card>, rest: Vec<Card> },
}

/// The views of cards.
pub open spec fn cards(row: Seq<Card>) -> Seq<(Seq<char>, Seq<char>)> {
    row.map_values(|card: Card| card@)
}

/// The text of a level that a sound may have.
pub open spec fn shown_level(level: Option<Level>, number: Seq<char>, unit: Seq<char>) -> Seq<
    char,
> {
    level_text(
        if level is Some {
            Some(number)
        } else {
            None
        },
        unit,
    )
}

/// The cards of the levels.
pub open spec fn level_cards(metrics: AudioMetrics, texts: LevelTexts) -> Seq<
    (Seq<char>, Seq<char>),
> {
    seq![
        (
            "Integrated"@,
            shown_level(metrics.integrated_lufs, texts.integrated_lufs@, "LUFS"@),
        ),
        (
            "Active RMS"@,
            shown_level(metrics.active_speech_rms, texts.active_speech_rms@, "dBFS"@),
        ),
        ("Sample peak"@, shown_level(metrics.sample_peak, texts.sample_peak@, "dBFS"@)),
        ("True peak"@, shown_level(metrics.true_peak, texts.true_peak@, "dBTP"@)),
    ]
}

/// The cards of the silences.
pub open spec fn silence_cards(metrics: AudioMetrics) -> Seq<(Seq<char>, Seq<char>)> {
    seq![
        ("Leading"@, compact_duration_text(metrics.silence.leading@)),
        ("Trailing"@, compact_duration_text(metrics.silence.trailing@)),
        ("Internal pauses"@, decimal(metrics.silence.pause_count as nat)),
        ("Pause total"@, compact_duration_text(metrics.silence.pause_total@)),
        ("Longest pause"@, compact_duration_text(metrics.silence.pause_longest@)),
    ]
}

/// The other cards.
pub open spec fn other_cards(metrics: AudioMetrics, numbers: LevelTexts) -> Seq<
    (Seq<char>, Seq<char>),
> {
    seq![
        ("DC offset"@, joined(offset_parts(texts(numbers.dc_offsets@)), " • "@)),
        (
            "Near-clipped"@,
            share_text(
                metrics.near_clipped_samples as nat,
                metrics.total_samples as nat,
            ),
        ),
    ]
}

/// The text of a level that a sound may have.
fn write_level(level: Option<Level>, number: &String, unit: &str) -> (text: String)
    ensures
        text@ == shown_level(level, number@, unit@),
{
    match level {
        Some(_) => format_db(Some(number.as_str()), unit),
        None => format_db(None, unit),
    }
}

/// What the panel shows: the figures, once they are there; before that, that the file is
/// being analyzed; and where they will not be there, why.
pub fn render_analysis_panel(
    metrics: Option<&AudioMetrics>,
    numbers: &LevelTexts,
    loading: bool,
    error: Option<&str>,
) -> (panel: Panel)
    ensures
        if loading {
            panel matches Panel::Status(text) && text@
                == "Analyzing loudness, levels, and silence…"@
        } else if error is Some {
            panel matches Panel::Status(text) && text@ == "Analysis unavailable: "@ + error->0@
        } else if metrics is Some {
            &&& panel matches Panel::Figures { levels, silences, rest }
            &&& cards(levels@) == level_cards(*metrics->0, *numbers)
            &&& cards(silences@) == silence_cards(*metrics->0)
            &&& cards(rest@) == other_cards(*metrics->0, *numbers)
        } else {
            panel matches Panel::Status(text) && text@ == "Analysis unavailable"@
        },
{
    if loading {
        return Panel::Status(String::from_str("Analyzing loudness, levels, and silence…"));
    }
    if let Some(error) = error {
        let mut text = String::from_str("Analysis unavailable: ");
        text.append(error);
        return Panel::Status(text);
    }
    let metrics = match metrics {
        Some(metrics) => metrics,
        None => {
            return Panel::Status(String::from_str("Analysis unavailable"));
        },
    };
    let mut levels: Vec<Card> = Vec::new();
    levels.push(
        Card {
            label: "Integrated",
            value: write_level(metrics.integrated_lufs, &numbers.integrated_lufs, "LUFS"),
        },
    );
    levels.push(
        Card {
            label: "Active RMS",
            value: write_level(metrics.active_speech_rms, &numbers.active_speech_rms, "dBFS"),
        },
    );
    levels.push(
        Card {
            label: "Sample peak",
            value: write_level(metrics.sample_peak, &numbers.sample_peak, "dBFS"),
        },
    );
    levels.push(
        Card {
            label: "True peak",
            value: write_level(metrics.true_peak, &numbers.true_peak, "dBTP"),
        },
    );
    assert(cards(levels@) =~= level_cards(*metrics, *numbers));

    let silence = &metrics.silence;
    let mut count = String::new();
    push_decimal(&mut count, silence.pause_count as u128);
    assert(count@ =~= decimal(silence.pause_count as nat));
    let mut silences: Vec<Card> = Vec::new();
    silences.push(Card { label: "Leading", value: format_duration_compact(silence.leading) });
    silences.push(Card { label: "Trailing", value: format_duration_compact(silence.trailing) });
    silences.push(Card { label: "Internal pauses", value: count });
    silences.push(
        Card { label: "Pause total", value: format_duration_compact(silence.pause_total) },
    );
    silences.push(
        Card { label: "Longest pause", value: format_duration_compact(silence.pause_longest) },
    );
    assert(cards(silences@) =~= silence_cards(*metrics));

    let mut rest: Vec<Card> = Vec::new();
    rest.push(Card { label: "DC offset", value: format_dc_offsets(&numbers.dc_offsets) });
    rest.push(
        Card {
            label: "Near-clipped",
            value: format_near_clipped(metrics.near_clipped_samples, metrics.total_samples),
        },
    );
    assert(cards(rest@) =~= other_cards(*metrics, *numbers));
    Panel::Figures { levels, silences, rest }
}

/// Each level has a card of its own, with its number and its unit where the sound has that
/// level, and else that it is unavailable, whatever the other levels are.
pub proof fn law_each_level_has_its_card(metrics: AudioMetrics, texts: LevelTexts)
    ensures
        ({
            let row = level_cards(metrics, texts);
            &&& row.len() == 4
            &&& row[0].0 == "Integrated"@ && row[0].1 == (if metrics.integrated_lufs is Some {
                texts.integrated_lufs@ + " "@ + "LUFS"@
            } else {
                "Unavailable "@ + "LUFS"@
            })
            &&& row[1].0 == "Active RMS"@ && row[1].1 == (if metrics.active_speech_rms is Some {
                texts.active_speech_rms@ + " "@ + "dBFS"@
            } else {
                "Unavailable "@ + "dBFS"@
            })
            &&& row[2].0 == "Sample peak"@ && row[2].1 == (if metrics.sample_peak is Some {
                texts.sample_peak@ + " "@ + "dBFS"@
            } else {
                "Unavailable "@ + "dBFS"@
            })
            &&& row[3].0 == "True peak"@ && row[3].1 == (if metrics.true_peak is Some {
                texts.true_peak@ + " "@ + "dBTP"@
            } else {
                "Unavailable "@ + "dBTP"@
            })
        }),
{
}

/// Each figure of the silences has a card of its own, in the order in which they come in the
/// sound and then by what they sum up; the offsets and the samples near full scale follow.
pub proof fn law_each_silence_figure_has_its_card(metrics: AudioMetrics, numbers: LevelTexts)
    ensures
        ({
            let row = silence_cards(metrics);
            &&& row.len() == 5
            &&& row[0] == ("Leading"@, compact_duration_text(metrics.silence.leading@))
            &&& row[1] == ("Trailing"@, compact_duration_text(metrics.silence.trailing@))
            &&& row[2] == ("Internal pauses"@, decimal(metrics.silence.pause_count as nat))
            &&& row[3] == ("Pause total"@, compact_duration_text(metrics.silence.pause_total@))
            &&& row[4] == ("Longest pause"@, compact_duration_text(metrics.silence.pause_longest@))
        }),
        ({
            let row = other_cards(metrics, numbers);
            &&& row.len() == 2
            &&& row[0] == ("DC offset"@, joined(offset_parts(texts(numbers.dc_offsets@)), " • "@))
            &&& row[1].0 == "Near-clipped"@
            &&& row[1].1 == share_text(
                metrics.near_clipped_samples as nat,
                metrics.total_samples as nat,
            )
        }),
{
}

} // verus!
