//! What the view shows and what the user's actions do to it.

use std::sync::Arc;

use audio_viewer::analysis::{AudioAnalysis, AudioMetadata};
use audio_viewer::duration::Duration;
use audio_viewer::file::{DiskState, File, Worktree};
use audio_viewer::item::{AudioId, AudioItem, AudioItemEvent};
use audio_viewer::level::Level;
use audio_viewer::metrics::AudioMetrics;
use audio_viewer::panel::{render_analysis_panel, Card, LevelTexts, Panel};
use audio_viewer::playback::{PlaybackSnapshot, PlaybackStatus};
use audio_viewer::sample::Sample;
use audio_viewer::silence::SilenceSummary;
use audio_viewer::view::{
    breadcrumb_root, format_label, is_muted, set_volume_from_position, to_item_events,
    volume_mouse_down, volume_mouse_move, AudioView, AudioViewEvent, ItemEvent, Pointer, Toggle,
    VolumePointer,
};

fn secs(seconds: u64) -> Duration {
    Duration::from_secs(seconds)
}

fn item(path: &str, bytes: &[u8]) -> AudioItem {
    let file = File {
        worktree: Worktree { handle: 1, id: 1 },
        path: path.to_string(),
        disk_state: DiskState::New,
        entry_id: None,
        is_local: true,
        is_private: false,
    };
    match AudioId::from_proto(1) {
        Some(id) => AudioItem::new(id, file, bytes.to_vec()),
        None => panic!("one is a number"),
    }
}

fn metrics() -> AudioMetrics {
    AudioMetrics {
        active_speech_rms: Some(Level { bits: 1.0_f64.to_bits() }),
        integrated_lufs: None,
        sample_peak: Some(Level { bits: 0.5_f64.to_bits() }),
        true_peak: None,
        dc_offsets: vec![Level { bits: 0 }],
        near_clipped_samples: 1,
        total_samples: 8,
        silence: SilenceSummary {
            leading: Duration::from_millis(120),
            trailing: Duration::zero(),
            pause_count: 2,
            pause_total: secs(75),
            pause_longest: Duration::from_millis(9_999),
        },
    }
}

fn analysis(duration: Duration) -> AudioAnalysis {
    AudioAnalysis {
        metadata: AudioMetadata {
            file_size: 2_048,
            duration: Some(duration),
            channels: Some(1),
            sample_rate: Some(44_100),
        },
        waveform: vec![],
        silence_ranges: vec![],
        metrics: metrics(),
    }
}

fn analyzed(duration: Duration) -> AudioView {
    let (mut view, request) = AudioView::new(&item("a/b.wav", &[1, 2]));
    view.analysis_finished(request.number, Ok(analysis(duration)));
    view
}

fn quiet() -> PlaybackSnapshot {
    PlaybackSnapshot::default()
}

fn told(status: PlaybackStatus, position: Duration) -> PlaybackSnapshot {
    PlaybackSnapshot { status, position, ..PlaybackSnapshot::default() }
}

#[test]
fn a_new_view_waits_for_its_analysis() {
    let (mut view, request) = AudioView::new(&item("a/b.wav", &[1, 2]));
    assert_eq!(request.bytes.to_vec(), vec![1, 2]);
    assert_eq!(request.format_hint.as_deref(), Some("wav"));
    let shown = view.render(quiet(), "a/b.wav", false);
    assert!(shown.analysis_loading);
    assert!(!shown.waveform_unavailable);
    assert!(!shown.can_seek);
    assert!(!shown.animate);
    assert!(!shown.show_playhead);
    assert_eq!(shown.description, "2 B");
    assert_eq!(shown.format_label, "WAV");
    assert_eq!(shown.position_text, "0:00");
    assert_eq!(shown.duration_text, "Unknown duration");
    assert_eq!(shown.hover_text, None);
    assert_eq!(shown.playback_error, None);
}

#[test]
fn results_of_an_analysis_are_shown() {
    let mut view = analyzed(Duration::from_millis(887));
    let shown = view.render(quiet(), "a", true);
    assert!(!shown.analysis_loading);
    assert!(shown.can_seek);
    assert!(shown.show_playhead);
    assert_eq!(shown.description, "Mono • 44.1 kHz • 2.0 KiB");
    assert_eq!(shown.format_label, "AUDIO");
    assert_eq!(shown.position_text, "0:00.000");
    assert_eq!(shown.duration_text, "0:00.887");
    view.analysis_finished(0, Err("broken".to_string()));
    let shown = view.render(quiet(), "a", false);
    assert!(shown.waveform_unavailable);
    assert!(!shown.analysis_loading);
    assert!(view.metrics.is_none());
    assert_eq!(view.analysis_error.as_deref(), Some("broken"));
    assert_eq!(shown.duration_text, "0:00.887");
}

#[test]
fn labels_are_extensions_in_capitals() {
    assert_eq!(format_label("x/y.Mp3"), "MP3");
    assert_eq!(format_label("x/y"), "AUDIO");
    assert_eq!(format_label("x.ß"), "SS");
}

#[test]
fn contents_that_were_read_again_are_analyzed_again() {
    let mut view = analyzed(secs(10));
    view.scrub_position = Some(secs(1));
    view.hover_position = Some(secs(1));
    view.seek_bar_hovered = true;
    let moved = item("a/c.mp3", &[9, 9, 9]);
    let update = view.on_audio_event(AudioItemEvent::FileHandleChanged, &moved, Ok(()));
    assert_eq!(update.event, Some(AudioViewEvent::TitleChanged));
    assert!(update.analysis.is_none());
    assert_eq!(view.metadata.duration, Some(secs(10)));
    let update = view.on_audio_event(AudioItemEvent::ReloadNeeded, &moved, Ok(()));
    assert_eq!(update.event, Some(AudioViewEvent::TitleChanged));
    let update = view.on_audio_event(AudioItemEvent::Reloaded, &moved, Ok(()));
    assert_eq!(update.event, None);
    let request = match update.analysis {
        Some(request) => request,
        None => panic!("an analysis"),
    };
    assert_eq!(request.bytes.len(), 3);
    assert_eq!(request.format_hint.as_deref(), Some("mp3"));
    assert_eq!(view.metadata, AudioMetadata::loading(3));
    assert!(view.waveform.is_none());
    assert_eq!(view.scrub_position, None);
    assert_eq!(view.hover_position, None);
    assert!(view.seek_bar_hovered);
    // The analysis before no longer counts.
    view.analysis_finished(0, Ok(analysis(secs(10))));
    assert_eq!(view.metadata, AudioMetadata::loading(3));
    view.analysis_finished(request.number, Ok(analysis(secs(20))));
    assert_eq!(view.metadata.duration, Some(secs(20)));
}

#[test]
fn events_stop_playback() {
    for event in [
        AudioItemEvent::ReloadNeeded,
        AudioItemEvent::Reloaded,
        AudioItemEvent::FileHandleChanged,
    ] {
        let mut view = analyzed(secs(10));
        view.playback.connected = true;
        view.playback.status = PlaybackStatus::Playing;
        view.playback.position = secs(4);
        view.on_audio_event(event, &item("a", &[]), Ok(()));
        assert_eq!(view.playback.status, PlaybackStatus::Idle);
        assert_eq!(view.playback.position(), Duration::zero());
    }
}

#[test]
fn playback_is_toggled() {
    let mut view = analyzed(secs(10));
    assert_eq!(view.toggle_playback(quiet()), Toggle::Play);
    view.playback.connected = true;
    assert_eq!(
        view.toggle_playback(told(PlaybackStatus::Playing, secs(2))),
        Toggle::Pause
    );
    assert_eq!(view.playback.position(), secs(2));
    assert_eq!(view.toggle_playback(told(PlaybackStatus::Paused, secs(2))), Toggle::Play);
}

#[test]
fn steps_stay_in_the_file() {
    let mut view = analyzed(secs(10));
    view.playback.connected = true;
    let at = |position: u64| told(PlaybackStatus::Playing, secs(position));
    assert_eq!(view.seek_backward(at(3)), Duration::zero());
    assert_eq!(view.seek_backward(at(8)), secs(3));
    assert_eq!(view.seek_forward(at(3)), secs(8));
    assert_eq!(view.seek_forward(at(8)), secs(10));
    assert_eq!(view.reset_playback(), Duration::zero());
    view.metadata.duration = None;
    assert_eq!(view.seek_forward(at(8)), secs(13));
    let last = Duration::from_nanos(18_446_744_073_709_551_615_999_999_999);
    assert_eq!(view.seek_forward(told(PlaybackStatus::Playing, last)), last);
}

#[test]
fn the_position_is_dragged() {
    let mut view = analyzed(secs(10));
    assert!(!view.seek_bar_mouse_down(Pointer::NotLaidOut));
    assert!(view.seek_bar_mouse_down(Pointer::At(secs(4))));
    assert_eq!(view.scrub_position, Some(secs(4)));
    let shown = view.render(quiet(), "a", false);
    assert_eq!(shown.position, secs(4));
    assert!(shown.show_playhead);
    assert_eq!(shown.hover_text.as_deref(), Some("Seek to 0:04"));
    assert!(view.seek_bar_mouse_move(Pointer::At(secs(6)), true));
    assert_eq!(view.scrub_position, Some(secs(6)));
    view.seek_bar_hover(false);
    assert_eq!(view.hover_position, Some(secs(6)));
    assert_eq!(view.seek_bar_mouse_up(), Some(secs(6)));
    assert_eq!(view.scrub_position, None);
    assert_eq!(view.hover_position, Some(secs(6)));
    assert_eq!(view.seek_bar_mouse_up(), None);
    assert!(view.seek_bar_mouse_move(Pointer::At(secs(7)), false));
    assert_eq!(view.scrub_position, None);
    assert_eq!(view.hover_position, Some(secs(7)));
    assert!(view.seek_bar_mouse_move(Pointer::Nowhere, false));
    assert_eq!(view.hover_position, None);
    assert!(!view.seek_bar_mouse_move(Pointer::NotLaidOut, true));
    view.seek_bar_hover(true);
    assert!(view.seek_bar_hovered);
    view.hover_position = Some(secs(1));
    view.seek_bar_hover(false);
    assert_eq!(view.hover_position, None);
}

#[test]
fn without_a_duration_nothing_is_pointed_at() {
    let (mut view, _) = AudioView::new(&item("a", &[]));
    assert_eq!(view.seek_position(Pointer::At(secs(4))), None);
    assert!(view.seek_bar_mouse_down(Pointer::At(secs(4))));
    assert_eq!(view.scrub_position, None);
}

#[test]
fn positions_are_shown_within_the_file() {
    let mut view = analyzed(secs(10));
    view.playback.connected = true;
    let shown = view.render(told(PlaybackStatus::Playing, secs(12)), "a", false);
    assert_eq!(shown.position, secs(10));
    assert!(shown.animate);
    assert!(shown.is_playing);
    let shown = view.render(told(PlaybackStatus::Finished, secs(9)), "a", false);
    assert_eq!(shown.position, secs(10));
    assert!(!shown.animate);
    view.metadata.duration = None;
    let shown = view.render(told(PlaybackStatus::Finished, secs(9)), "a", false);
    assert_eq!(shown.position, secs(9));
    let mut failed = told(PlaybackStatus::Failed, secs(9));
    failed.error = Some("lost".to_string());
    let shown = view.render(failed, "a", false);
    assert_eq!(shown.playback_error.as_deref(), Some("lost"));
}

#[test]
fn titles_change_tabs_and_breadcrumbs() {
    assert_eq!(
        to_item_events(AudioViewEvent::TitleChanged),
        vec![ItemEvent::UpdateTab, ItemEvent::UpdateBreadcrumbs]
    );
    let root = Some("music".to_string());
    assert_eq!(breadcrumb_root(2, root.clone()), root);
    assert_eq!(breadcrumb_root(1, root), None);
    assert_eq!(breadcrumb_root(2, None), None);
}

fn numbers() -> LevelTexts {
    LevelTexts {
        integrated_lufs: "-23.0".to_string(),
        active_speech_rms: "0.0".to_string(),
        sample_peak: "-6.0".to_string(),
        true_peak: "-5.9".to_string(),
        dc_offsets: vec!["+0.100".to_string(), "-0.200".to_string()],
    }
}

fn status(panel: Panel) -> String {
    match panel {
        Panel::Status(text) => text,
        Panel::Figures { .. } => panic!("figures"),
    }
}

fn texts(cards: &[Card]) -> Vec<(&str, &str)> {
    cards.iter().map(|card| (card.label, card.value.as_str())).collect()
}

#[test]
fn the_panel_says_why_there_are_no_figures() {
    let figures = Arc::new(metrics());
    assert_eq!(
        status(render_analysis_panel(Some(&figures), &numbers(), true, Some("x"))),
        "Analyzing loudness, levels, and silence…"
    );
    assert_eq!(
        status(render_analysis_panel(Some(&figures), &numbers(), false, Some("x"))),
        "Analysis unavailable: x"
    );
    assert_eq!(
        status(render_analysis_panel(None, &numbers(), false, None)),
        "Analysis unavailable"
    );
}

#[test]
fn the_panel_shows_the_figures() {
    match render_analysis_panel(Some(&metrics()), &numbers(), false, None) {
        Panel::Figures { levels, silences, rest } => {
            assert_eq!(
                texts(&levels),
                vec![
                    ("Integrated", "Unavailable LUFS"),
                    ("Active RMS", "0.0 dBFS"),
                    ("Sample peak", "-6.0 dBFS"),
                    ("True peak", "Unavailable dBTP"),
                ]
            );
            assert_eq!(
                texts(&silences),
                vec![
                    ("Leading", "0.12 s"),
                    ("Trailing", "0.00 s"),
                    ("Internal pauses", "2"),
                    ("Pause total", "1:15"),
                    ("Longest pause", "10.00 s"),
                ]
            );
            assert_eq!(
                texts(&rest),
                vec![
                    ("DC offset", "Ch1 +0.100% • Ch2 -0.200%"),
                    ("Near-clipped", "1 (12.500%)"),
                ]
            );
        }
        Panel::Status(text) => panic!("{text}"),
    }
}

#[test]
fn the_volume_follows_the_pointer() {
    let half = Sample { bits: 0.5_f32.to_bits() };
    assert_eq!(set_volume_from_position(VolumePointer::At(half)), Some(half));
    assert_eq!(set_volume_from_position(VolumePointer::Nowhere), None);
    assert_eq!(set_volume_from_position(VolumePointer::NotLaidOut), None);
    let pressed = volume_mouse_down(VolumePointer::At(half));
    assert_eq!((pressed.volume, pressed.taken), (Some(half), true));
    let nowhere = volume_mouse_down(VolumePointer::NotLaidOut);
    assert_eq!((nowhere.volume, nowhere.taken), (None, true));
    let dragged = volume_mouse_move(VolumePointer::At(half), true);
    assert_eq!((dragged.volume, dragged.taken), (Some(half), true));
    let passed = volume_mouse_move(VolumePointer::At(half), false);
    assert_eq!((passed.volume, passed.taken), (None, false));
}

#[test]
fn hardly_any_volume_is_shown_as_muted() {
    for volume in [0.0, -0.0, f32::EPSILON, 2.0 * f32::EPSILON, 1.0, -1.0, f32::NAN, -f32::NAN] {
        assert_eq!(
            is_muted(Sample { bits: volume.to_bits() }),
            volume <= f32::EPSILON,
            "{volume}"
        );
    }
}

#[test]
fn letting_go_keeps_the_position() {
    let mut view = analyzed(secs(10));
    view.playback.connected = true;
    view.playback.status = PlaybackStatus::Playing;
    view.seek_bar_mouse_down(Pointer::At(secs(4)));
    if let Some(target) = view.seek_bar_mouse_up() {
        view.playback.seek_to(target, Ok(()));
    }
    let shown = view.render(told(PlaybackStatus::Playing, secs(1)), "a", false);
    assert_eq!(shown.position, secs(4));
}
