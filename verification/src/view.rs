//! The state behind the view of an audio file, what the user's actions do to it, and what
//! it shows.

use std::sync::Arc;

use vstd::prelude::*;
use vstd::string::*;

use crate::analysis::{AudioAnalysis, AudioMetadata};
use crate::display::{duration_text, format_duration, metadata_description, metadata_parts};
use crate::duration::{Duration, MAX_NANOS, NANOS_PER_SEC};
use crate::file::{ascii, ascii_upper, extension, extension_of, text_of, uppercase};
use crate::item::{AudioItem, AudioItemEvent};
use crate::metrics::AudioMetrics;
use crate::playback::{copy_message, PlaybackSnapshot, PlaybackStatus};
use crate::sample::{Sample, SIGN};
use crate::silence::SilenceRange;
use crate::text::joined;
use crate::transport::{Delivery, PlaybackState};
use crate::waveform::WaveformBucket;

verus! {

/// How far one step forward or backward goes, in seconds.
pub const SEEK_STEP_SECS: u64 = 5;

/// What a view tells those who hold it.
#[derive(Clone, Copy, Debug, PartialEq, Eq, Structural)]
pub enum AudioViewEvent {
    TitleChanged,
}

/// What is to be drawn again in the window that holds a view.
#[derive(Clone, Copy, Debug, PartialEq, Eq, Structural)]
pub enum ItemEvent {
    UpdateTab,
    UpdateBreadcrumbs,
}

/// What a view's news mean for the window that holds it.
pub fn to_item_events(event: AudioViewEvent) -> (events: Vec<ItemEvent>)
    ensures
        events@ == match event {
            AudioViewEvent::TitleChanged => seq![
                ItemEvent::UpdateTab,
                ItemEvent::UpdateBreadcrumbs,
            ],
        },
{
    let mut events: Vec<ItemEvent> = Vec::new();
    match event {
        AudioViewEvent::TitleChanged => {
            events.push(ItemEvent::UpdateTab);
            events.push(ItemEvent::UpdateBreadcrumbs);
        },
    }
    assert(events@ =~= seq![ItemEvent::UpdateTab, ItemEvent::UpdateBreadcrumbs]);
    events
}

/// The name that goes in front of a path where several folders are shown: that of the
/// path's folder, if it is open.
pub fn breadcrumb_root(visible_worktrees: usize, root_name: Option<String>) -> (root: Option<
    String,
>)
    ensures
        root == if visible_worktrees > 1 {
            root_name
        } else {
            None
        },
{
    if visible_worktrees > 1 {
        root_name
    } else {
        None
    }
}

/// An order to analyze a file.
#[derive(Debug)]
pub struct AnalysisRequest {
    /// Which of the view's analyses this is.
    pub number: u64,
    pub bytes: Arc<Vec<u8>>,
    pub format_hint: Option<String>,
}

/// Where the pointer is over the waveform.
#[derive(Clone, Copy, Debug, PartialEq, Eq, Structural)]
pub enum Pointer {
    /// The waveform has not been laid out.
    NotLaidOut,
    /// The waveform is too narrow to point at.
    Nowhere,
    /// At this time.
    At(Duration),
}

/// Where the pointer is over the volume bar.
#[derive(Clone, Copy, Debug, PartialEq, Eq, Structural)]
pub enum VolumePointer {
    /// The bar has not been laid out.
    NotLaidOut,
    /// The bar is too narrow to point at.
    Nowhere,
    /// At this share of the full volume.
    At(Sample),
}

/// What pointing at the volume bar does.
#[derive(Clone, Copy, Debug, PartialEq, Eq, Structural)]
pub struct VolumeUpdate {
    /// The volume to set, if any.
    pub volume: Option<Sample>,
    /// Whether the press or move was taken.
    pub taken: bool,
}

/// The volume that the pointer asks for.
pub open spec fn pointed_volume(pointer: VolumePointer) -> Option<Sample> {
    match pointer {
        VolumePointer::At(volume) => Some(volume),
        _ => None,
    }
}

/// The volume that the pointer asks for.
pub fn set_volume_from_position(pointer: VolumePointer) -> (volume: Option<Sample>)
    ensures
        volume == pointed_volume(pointer),
{
    match pointer {
        VolumePointer::At(volume) => Some(volume),
        _ => None,
    }
}

/// What a press on the volume bar does: the volume follows the pointer.
pub fn volume_mouse_down(pointer: VolumePointer) -> (update: VolumeUpdate)
    ensures
        update == (VolumeUpdate { volume: pointed_volume(pointer), taken: true }),
{
    VolumeUpdate { volume: set_volume_from_position(pointer), taken: true }
}

/// What a move over the volume bar does: the volume follows the pointer while the button is
/// held.
pub fn volume_mouse_move(pointer: VolumePointer, pressed: bool) -> (update: VolumeUpdate)
    ensures
        update == if pressed {
            VolumeUpdate { volume: pointed_volume(pointer), taken: true }
        } else {
            VolumeUpdate { volume: None, taken: false }
        },
{
    if pressed {
        VolumeUpdate { volume: set_volume_from_position(pointer), taken: true }
    } else {
        VolumeUpdate { volume: None, taken: false }
    }
}

/// The pattern of the volume from which sound is heard: the distance from one to the next
/// greater binary32 number.
pub const AUDIBLE_VOLUME: u32 = 0x3400_0000;

/// Whether a volume is shown as muted: it is not above the least that counts.
pub fn is_muted(volume: Sample) -> (muted: bool)
    ensures
        muted == (volume.is_number() && volume.rank() <= AUDIBLE_VOLUME),
        muted <==> volume.bits <= 0x3400_0000 || 0x8000_0000 <= volume.bits <= 0xFF80_0000,
{
    if volume.bits >= SIGN {
        volume.number()
    } else {
        volume.bits <= AUDIBLE_VOLUME
    }
}

/// Whether toggling playback pauses or plays.
#[derive(Clone, Copy, Debug, PartialEq, Eq, Structural)]
pub enum Toggle {
    Pause,
    Play,
}

/// What is to be done about what an open audio file told.
#[derive(Debug)]
pub struct ViewUpdate {
    pub event: Option<AudioViewEvent>,
    pub analysis: Option<AnalysisRequest>,
}

/// The state behind the view of an audio file.
#[derive(Debug)]
pub struct AudioView {
    pub playback: PlaybackState,
    pub metadata: AudioMetadata,
    pub waveform: Option<Arc<Vec<WaveformBucket>>>,
    pub silence_ranges: Option<Arc<Vec<SilenceRange>>>,
    pub metrics: Option<Arc<AudioMetrics>>,
    pub analysis_error: Option<String>,
    /// The number of the last analysis.
    pub analysis: u64,
    pub scrub_position: Option<Duration>,
    pub hover_position: Option<Duration>,
    pub seek_bar_hovered: bool,
}

/// What a view shows.
#[derive(Debug)]
pub struct Rendered {
    /// Whether it is to be drawn again with the next frame.
    pub animate: bool,
    /// Where playback is shown to be.
    pub position: Duration,
    /// What is known of the file.
    pub description: String,
    pub format_label: String,
    pub is_playing: bool,
    pub can_seek: bool,
    pub show_playhead: bool,
    pub position_text: String,
    pub hover_text: Option<String>,
    pub duration_text: String,
    pub analysis_loading: bool,
    pub waveform_unavailable: bool,
    pub playback_error: Option<String>,
}

/// The number of the analysis after the one numbered `last`.
pub open spec fn analysis_after(last: u64) -> u64 {
    if last == u64::MAX {
        0
    } else {
        (last + 1) as u64
    }
}

/// What is known of a file that has not been analyzed.
pub open spec fn unanalyzed(bytes: Seq<u8>) -> AudioMetadata {
    AudioMetadata {
        file_size: bytes.len() as u64,
        duration: None,
        channels: None,
        sample_rate: None,
    }
}

/// Whether `request` asks for the analysis of an item, as the one with this number.
pub open spec fn asks_for(request: AnalysisRequest, item: AudioItem, number: u64) -> bool {
    &&& request.number == number
    &&& request.bytes == item.bytes
    &&& text_of(request.format_hint) == extension_of(item.file.path@)
}

/// The label of a file's format.
pub open spec fn format_text(path: Seq<char>) -> Seq<char> {
    match extension_of(path) {
        Some(extension) => uppercase(extension),
        None => uppercase("audio"@),
    }
}

impl AudioView {
    /// The view without any results of an analysis.
    pub open spec fn cleared(self) -> AudioView {
        AudioView {
            waveform: None,
            silence_ranges: None,
            metrics: None,
            analysis_error: None,
            ..self
        }
    }

    /// The view of an item before its analysis.
    pub open spec fn opened(self, item: AudioItem) -> bool {
        &&& self.playback == PlaybackState::fresh()
        &&& self == self.cleared()
        &&& self.metadata == unanalyzed(item.bytes@)
        &&& self.scrub_position is None
        &&& self.hover_position is None
        &&& !self.seek_bar_hovered
    }

    /// The position that the pointer asks for. There is none in a file whose duration is
    /// not known.
    pub open spec fn pointed(self, pointer: Pointer) -> Option<Duration> {
        match pointer {
            Pointer::At(position) if self.metadata.duration is Some => Some(position),
            _ => None,
        }
    }

    /// Where playback is shown to be: where it is being dragged to, else at the end once
    /// the file was played, else where it is; never behind the end.
    pub open spec fn shown_position(self) -> Duration {
        let wanted = match self.scrub_position {
            Some(position) => position,
            None => if self.playback.status == PlaybackStatus::Finished
                && self.metadata.duration is Some {
                self.metadata.duration->0
            } else {
                self.playback.position
            },
        };
        match self.metadata.duration {
            Some(duration) if duration@ < wanted@ => duration,
            _ => wanted,
        }
    }

    /// Whether times are shown with milliseconds: in files shorter than a second.
    pub open spec fn fine(self) -> bool {
        self.metadata.duration matches Some(duration) && duration@ < NANOS_PER_SEC
    }

    /// Whether the end of an analysis led to `after`: only the one that was ordered last counts.
    /// One that failed takes the earlier results away.
    pub open spec fn takes(
        self,
        after: AudioView,
        number: u64,
        analysis: Result<AudioAnalysis, String>,
    ) -> bool {
        if number != self.analysis {
            after == self
        } else {
            &&& after.playback == self.playback
            &&& after.analysis == self.analysis
            &&& after.scrub_position == self.scrub_position
            &&& after.hover_position == self.hover_position
            &&& after.seek_bar_hovered == self.seek_bar_hovered
            &&& match analysis {
                Ok(analysis) => {
                    &&& after.metadata == analysis.metadata
                    &&& after.waveform matches Some(waveform) && waveform@ == analysis.waveform@
                    &&& after.silence_ranges matches Some(ranges) && ranges@
                        == analysis.silence_ranges@
                    &&& after.metrics matches Some(metrics) && *metrics == analysis.metrics
                    &&& after.analysis_error is None
                },
                Err(message) => {
                    &&& after.metadata == self.metadata
                    &&& after.waveform is None
                    &&& after.silence_ranges is None
                    &&& after.metrics is None
                    &&& after.analysis_error == Some(message)
                },
            }
        }
    }

    /// The view once its audio file told of `event`, and playback was stopped.
    pub open spec fn told(self, event: AudioItemEvent, item: AudioItem, delivery: Delivery) -> AudioView {
        let stopped = AudioView { playback: self.playback.stopped(delivery), ..self };
        match event {
            AudioItemEvent::Reloaded => AudioView {
                metadata: unanalyzed(item.bytes@),
                analysis: analysis_after(self.analysis),
                scrub_position: None,
                hover_position: None,
                ..stopped.cleared()
            },
            _ => stopped,
        }
    }

    /// Whether toggling pauses or plays.
    pub open spec fn toggles(self) -> Toggle {
        if self.playback.playing() {
            Toggle::Pause
        } else {
            Toggle::Play
        }
    }

    /// Where a step back from `position` goes, in nanoseconds.
    pub open spec fn step_back(position: nat) -> nat {
        let step = SEEK_STEP_SECS * NANOS_PER_SEC;
        if position < step {
            0
        } else {
            (position - step) as nat
        }
    }

    /// Where a step forward from `position` goes, in nanoseconds.
    pub open spec fn step_forward(self, position: nat) -> nat {
        let ahead = position + SEEK_STEP_SECS * NANOS_PER_SEC;
        let reached = if ahead <= MAX_NANOS {
            ahead as nat
        } else {
            MAX_NANOS as nat
        };
        match self.metadata.duration {
            Some(duration) if duration@ < reached => duration@,
            _ => reached,
        }
    }

    /// The view once the waveform was pressed.
    pub open spec fn pressed(self, pointer: Pointer) -> AudioView {
        if pointer == Pointer::NotLaidOut {
            self
        } else {
            AudioView {
                scrub_position: self.pointed(pointer),
                hover_position: self.pointed(pointer),
                ..self
            }
        }
    }

    /// The view once the pointer moved over the waveform, with the button held or not.
    pub open spec fn hovered(self, pointer: Pointer, held: bool) -> AudioView {
        if pointer == Pointer::NotLaidOut {
            self
        } else {
            AudioView {
                scrub_position: if held {
                    self.pointed(pointer)
                } else {
                    self.scrub_position
                },
                hover_position: self.pointed(pointer),
                ..self
            }
        }
    }

    /// The view once the button was let go.
    pub open spec fn let_go(self) -> AudioView {
        if self.scrub_position is Some {
            AudioView { scrub_position: None, hover_position: self.scrub_position, ..self }
        } else {
            self
        }
    }

    /// The view once the pointer came over the waveform, or left it.
    pub open spec fn pointed_at(self, hovered: bool) -> AudioView {
        AudioView {
            seek_bar_hovered: hovered,
            hover_position: if !hovered && self.scrub_position is None {
                None
            } else {
                self.hover_position
            },
            ..self
        }
    }

    /// The view of an item, and the order to analyze it.
    pub fn new(item: &AudioItem) -> (view: (AudioView, AnalysisRequest))
        ensures
            view.0.opened(*item),
            asks_for(view.1, *item, view.0.analysis),
    {
        let bytes = item.bytes.clone();
        let metadata = AudioMetadata::loading(bytes.len() as u64);
        let view = AudioView {
            playback: PlaybackState::default(),
            metadata,
            waveform: None,
            silence_ranges: None,
            metrics: None,
            analysis_error: None,
            analysis: 0,
            scrub_position: None,
            hover_position: None,
            seek_bar_hovered: false,
        };
        (view, AnalysisRequest { number: 0, bytes, format_hint: format_hint(item) })
    }

    /// Takes the results of an analysis, or why there are none. Only the analysis that was
    /// ordered last counts.
    pub fn analysis_finished(&mut self, number: u64, analysis: Result<AudioAnalysis, String>)
        ensures
            number != old(self).analysis ==> *final(self) == *old(self),
            number == old(self).analysis ==> match analysis {
                Ok(analysis) => {
                    &&& final(self).metadata == analysis.metadata
                    &&& final(self).waveform matches Some(waveform) && waveform@
                        == analysis.waveform@
                    &&& final(self).silence_ranges matches Some(ranges) && ranges@
                        == analysis.silence_ranges@
                    &&& final(self).metrics matches Some(metrics) && *metrics == analysis.metrics
                    &&& final(self).cleared() == (AudioView {
                        metadata: analysis.metadata,
                        ..old(self).cleared()
                    })
                    &&& final(self).analysis_error is None
                },
                Err(message) => *final(self) == (AudioView {
                    analysis_error: Some(message),
                    ..old(self).cleared()
                }),
            },
            old(self).takes(*final(self), number, analysis),
    {
        if number != self.analysis {
            return;
        }
        match analysis {
            Ok(analysis) => {
                self.metadata = analysis.metadata;
                self.waveform = Some(Arc::new(analysis.waveform));
                self.silence_ranges = Some(Arc::new(analysis.silence_ranges));
                self.metrics = Some(Arc::new(analysis.metrics));
                self.analysis_error = None;
            },
            Err(message) => {
                self.waveform = None;
                self.silence_ranges = None;
                self.metrics = None;
                self.analysis_error = Some(message);
            },
        }
    }

    /// Takes note of what the open audio file told, once the command that stopping playback
    /// takes was sent. Contents that were read again are analyzed again.
    pub fn on_audio_event(
        &mut self,
        event: AudioItemEvent,
        item: &AudioItem,
        delivery: Delivery,
    ) -> (update: ViewUpdate)
        ensures
            match event {
                AudioItemEvent::Reloaded => {
                    &&& *final(self) == (AudioView {
                        playback: old(self).playback.stopped(delivery),
                        metadata: unanalyzed(item.bytes@),
                        analysis: analysis_after(old(self).analysis),
                        scrub_position: None,
                        hover_position: None,
                        ..old(self).cleared()
                    })
                    &&& update.event is None
                    &&& update.analysis matches Some(request) && asks_for(
                        request,
                        *item,
                        final(self).analysis,
                    )
                },
                _ => {
                    &&& *final(self) == (AudioView {
                        playback: old(self).playback.stopped(delivery),
                        ..*old(self)
                    })
                    &&& update.event == Some(AudioViewEvent::TitleChanged)
                    &&& update.analysis is None
                },
            },
            *final(self) == old(self).told(event, *item, delivery),
    {
        self.playback.stop(delivery);
        match event {
            AudioItemEvent::ReloadNeeded | AudioItemEvent::FileHandleChanged => ViewUpdate {
                event: Some(AudioViewEvent::TitleChanged),
                analysis: None,
            },
            AudioItemEvent::Reloaded => {
                let bytes = item.bytes.clone();
                self.metadata = AudioMetadata::loading(bytes.len() as u64);
                self.waveform = None;
                self.silence_ranges = None;
                self.metrics = None;
                self.analysis_error = None;
                self.scrub_position = None;
                self.hover_position = None;
                let number: u64 = self.analysis.wrapping_add(1);
                self.analysis = number;
                ViewUpdate {
                    event: None,
                    analysis: Some(
                        AnalysisRequest { number, bytes, format_hint: format_hint(item) },
                    ),
                }
            },
        }
    }

    /// Whether toggling playback pauses or plays, given what the playback thread tells.
    pub fn toggle_playback(&mut self, snapshot: PlaybackSnapshot) -> (toggle: Toggle)
        ensures
            *final(self) == (AudioView {
                playback: old(self).playback.synchronized(snapshot),
                ..*old(self)
            }),
            toggle == if final(self).playback.playing() {
                Toggle::Pause
            } else {
                Toggle::Play
            },
            toggle == final(self).toggles(),
    {
        self.playback.synchronize(snapshot);
        if self.playback.is_playing() {
            Toggle::Pause
        } else {
            Toggle::Play
        }
    }

    /// Where returning to the beginning goes.
    pub fn reset_playback(&self) -> (target: Duration)
        ensures
            target == Duration::empty(),
            target@ == 0,
    {
        Duration::zero()
    }

    /// Where a step backward goes, given what the playback thread tells: not beyond the
    /// beginning.
    pub fn seek_backward(&mut self, snapshot: PlaybackSnapshot) -> (target: Duration)
        ensures
            *final(self) == (AudioView {
                playback: old(self).playback.synchronized(snapshot),
                ..*old(self)
            }),
            target@ == if final(self).playback.position@ < SEEK_STEP_SECS * NANOS_PER_SEC {
                0
            } else {
                final(self).playback.position@ - SEEK_STEP_SECS * NANOS_PER_SEC
            },
            target@ == AudioView::step_back(final(self).playback.position@),
    {
        self.playback.synchronize(snapshot);
        self.playback.position().saturating_sub(Duration::from_secs(SEEK_STEP_SECS))
    }

    /// Where a step forward goes, given what the playback thread tells: not beyond the end,
    /// where that is known.
    pub fn seek_forward(&mut self, snapshot: PlaybackSnapshot) -> (target: Duration)
        ensures
            *final(self) == (AudioView {
                playback: old(self).playback.synchronized(snapshot),
                ..*old(self)
            }),
            ({
                let ahead = final(self).playback.position@ + SEEK_STEP_SECS * NANOS_PER_SEC;
                let reached = if ahead <= MAX_NANOS {
                    ahead
                } else {
                    MAX_NANOS as int
                };
                target@ == match old(self).metadata.duration {
                    Some(duration) if duration@ < reached => duration@ as int,
                    _ => reached,
                }
            }),
            target@ == old(self).step_forward(final(self).playback.position@),
    {
        self.playback.synchronize(snapshot);
        let target = self.playback.position().saturating_add(Duration::from_secs(SEEK_STEP_SECS));
        match self.metadata.duration {
            Some(duration) => target.min(duration),
            None => target,
        }
    }

    /// The position that the pointer asks for.
    pub fn seek_position(&self, pointer: Pointer) -> (position: Option<Duration>)
        ensures
            position == self.pointed(pointer),
    {
        match (pointer, self.metadata.duration) {
            (Pointer::At(position), Some(_)) => Some(position),
            _ => None,
        }
    }

    /// Starts to drag the position. Tells whether the press was taken.
    pub fn seek_bar_mouse_down(&mut self, pointer: Pointer) -> (taken: bool)
        ensures
            taken == (pointer != Pointer::NotLaidOut),
            *final(self) == if taken {
                AudioView {
                    scrub_position: old(self).pointed(pointer),
                    hover_position: old(self).pointed(pointer),
                    ..*old(self)
                }
            } else {
                *old(self)
            },
            *final(self) == old(self).pressed(pointer),
    {
        if pointer == Pointer::NotLaidOut {
            return false;
        }
        self.scrub_position = self.seek_position(pointer);
        self.hover_position = self.scrub_position;
        true
    }

    /// Follows the pointer, and drags the position where the button is held. Tells whether
    /// the move was taken.
    pub fn seek_bar_mouse_move(&mut self, pointer: Pointer, pressed: bool) -> (taken: bool)
        ensures
            taken == (pointer != Pointer::NotLaidOut),
            *final(self) == if taken {
                AudioView {
                    scrub_position: if pressed {
                        old(self).pointed(pointer)
                    } else {
                        old(self).scrub_position
                    },
                    hover_position: old(self).pointed(pointer),
                    ..*old(self)
                }
            } else {
                *old(self)
            },
            *final(self) == old(self).hovered(pointer, pressed),
    {
        if pointer == Pointer::NotLaidOut {
            return false;
        }
        self.hover_position = self.seek_position(pointer);
        if pressed {
            self.scrub_position = self.hover_position;
        }
        true
    }

    /// Ends dragging, and gives the position that playback is to move to.
    pub fn seek_bar_mouse_up(&mut self) -> (target: Option<Duration>)
        ensures
            target == old(self).scrub_position,
            *final(self) == if target is Some {
                AudioView { scrub_position: None, hover_position: target, ..*old(self) }
            } else {
                *old(self)
            },
            *final(self) == old(self).let_go(),
    {
        let target = self.scrub_position;
        if target.is_some() {
            self.scrub_position = None;
            self.hover_position = target;
        }
        target
    }

    /// Takes note of whether the pointer is over the waveform.
    pub fn seek_bar_hover(&mut self, hovered: bool)
        ensures
            *final(self) == (AudioView {
                seek_bar_hovered: hovered,
                hover_position: if !hovered && old(self).scrub_position is None {
                    None
                } else {
                    old(self).hover_position
                },
                ..*old(self)
            }),
            *final(self) == old(self).pointed_at(hovered),
    {
        self.seek_bar_hovered = hovered;
        if !hovered && self.scrub_position.is_none() {
            self.hover_position = None;
        }
    }

    /// What the view of the file at `path` shows, given what the playback thread tells and
    /// whether the view has the focus.
    pub fn render(&mut self, snapshot: PlaybackSnapshot, path: &str, focused: bool) -> (shown:
        Rendered)
        ensures
            *final(self) == (AudioView {
                playback: old(self).playback.synchronized(snapshot),
                ..*old(self)
            }),
            shown.animate == final(self).playback.playing(),
            shown.is_playing == final(self).playback.playing(),
            shown.position == final(self).shown_position(),
            shown.description@ == joined(metadata_parts(old(self).metadata), " • "@),
            shown.format_label@ == format_text(path@),
            extension_of(path@) is None ==> shown.format_label@ == "AUDIO"@,
            shown.can_seek == (old(self).metadata.duration is Some),
            shown.show_playhead == (old(self).seek_bar_hovered || old(self).scrub_position is Some
                || focused),
            shown.position_text@ == duration_text(
                final(self).shown_position()@,
                old(self).fine(),
            ),
            match old(self).hover_position {
                Some(position) => shown.hover_text matches Some(text) && text@ == "Seek to "@
                    + duration_text(position@, old(self).fine()),
                None => shown.hover_text is None,
            },
            shown.duration_text@ == match old(self).metadata.duration {
                Some(duration) => duration_text(duration@, old(self).fine()),
                None => "Unknown duration"@,
            },
            shown.analysis_loading == (old(self).waveform is None && old(
                self,
            ).analysis_error is None),
            shown.waveform_unavailable == (old(self).analysis_error is Some),
            shown.playback_error == final(self).playback.error,
    {
        self.playback.synchronize(snapshot);
        let playing = self.playback.is_playing();
        let wanted = match self.scrub_position {
            Some(position) => position,
            None => match (self.playback.is_finished(), self.metadata.duration) {
                (true, Some(duration)) => duration,
                _ => self.playback.position(),
            },
        };
        let position = match self.metadata.duration {
            Some(duration) => wanted.min(duration),
            None => wanted,
        };
        let format_label = format_label(path);
        let fine = match self.metadata.duration {
            Some(duration) => duration.is_shorter_than(&Duration::from_secs(1)),
            None => false,
        };
        let hover_text = match self.hover_position {
            Some(position) => {
                let mut text = String::from_str("Seek to ");
                text.append(format_duration(position, fine).as_str());
                Some(text)
            },
            None => None,
        };
        let duration_text = match self.metadata.duration {
            Some(duration) => format_duration(duration, fine),
            None => String::from_str("Unknown duration"),
        };
        Rendered {
            animate: playing,
            position,
            description: metadata_description(self.metadata),
            format_label,
            is_playing: playing,
            can_seek: self.metadata.duration.is_some(),
            show_playhead: self.seek_bar_hovered || self.scrub_position.is_some() || focused,
            position_text: format_duration(position, fine),
            hover_text,
            duration_text,
            analysis_loading: self.waveform.is_none() && self.analysis_error.is_none(),
            waveform_unavailable: self.analysis_error.is_some(),
            playback_error: copy_message(&self.playback.error),
        }
    }
}

/// The format that an item's name suggests.
pub fn format_hint(item: &AudioItem) -> (hint: Option<String>)
    ensures
        text_of(hint) == extension_of(item.file.path@),
{
    extension(item.file.path.as_str())
}

/// The label of the format of the file at `path`: its extension in capitals.
pub fn format_label(path: &str) -> (label: String)
    ensures
        label@ == format_text(path@),
        match extension_of(path@) {
            Some(extension) => ascii(extension) ==> label@ == extension.map_values(
                |c: char| ascii_upper(c),
            ),
            None => label@ == "AUDIO"@,
        },
{
    match extension(path) {
        Some(extension) => extension.as_str().to_uppercase(),
        None => {
            let label = "audio".to_uppercase();
            proof {
                reveal_strlit("audio");
                reveal_strlit("AUDIO");
                assert(ascii("audio"@));
                assert("audio"@.map_values(|c: char| ascii_upper(c)) =~= "AUDIO"@);
            }
            label
        },
    }
}

/// Playback is never shown behind the end of a file whose duration is known.
pub proof fn law_position_stays_in_the_file(view: AudioView, duration: Duration)
    requires
        view.metadata.duration == Some(duration),
    ensures
        view.shown_position()@ <= duration@,
{
}

/// A file that was played to its end is shown there, wherever the thread says it is.
pub proof fn law_finished_file_is_shown_at_its_end(view: AudioView, duration: Duration)
    requires
        view.metadata.duration == Some(duration),
        view.playback.status == PlaybackStatus::Finished,
        view.scrub_position is None,
    ensures
        view.shown_position() == duration,
{
}

/// While the position is dragged in a file, the view shows where to.
pub proof fn law_dragged_position_is_shown(view: AudioView, position: Duration, duration: Duration)
    requires
        view.metadata.duration == Some(duration),
        view.scrub_position == Some(position),
        position@ <= duration@,
    ensures
        view.shown_position() == position,
{
}

/// Letting go of a position that was dragged keeps showing it, while the thread moves its
/// player there.
pub proof fn law_released_position_is_kept(view: AudioView, target: Duration, duration: Duration)
    requires
        view.metadata.duration == Some(duration),
        view.scrub_position == Some(target),
        target@ <= duration@,
        view.playback.connected,
        view.playback.seeks(),
    ensures
        (AudioView {
            scrub_position: None,
            hover_position: Some(target),
            playback: view.playback.sought(target, Ok(())),
            ..view
        }).shown_position() == target,
{
}

/// An analysis that another one was ordered after no longer counts.
pub proof fn law_later_analysis_counts(number: u64)
    ensures
        analysis_after(number) != number,
{
}

/// The pointer asks for the position it is at, wherever that is, in a file whose duration is
/// known; elsewhere, and in any other file, it asks for none.
pub proof fn law_the_pointer_asks_for_where_it_is(
    view: AudioView,
    pointer: Pointer,
    position: Duration,
)
    ensures
        view.metadata.duration is Some ==> view.pointed(Pointer::At(position)) == Some(position),
        view.metadata.duration is None ==> view.pointed(pointer) is None,
        view.pointed(pointer) matches Some(asked) ==> pointer == Pointer::At(asked),
{
}

/// A file that is neither dragged in nor played to its end is shown where playback is, and at
/// its end where playback is behind that. A file of unknown duration is shown wherever it is
/// dragged to, or where playback is.
pub proof fn law_playback_is_shown_where_it_is(view: AudioView)
    ensures
        view.scrub_position is None && view.playback.status != PlaybackStatus::Finished
            ==> match view.metadata.duration {
            Some(duration) => {
                &&& view.playback.position@ <= duration@ ==> view.shown_position()
                    == view.playback.position
                &&& view.playback.position@ > duration@ ==> view.shown_position() == duration
            },
            None => view.shown_position() == view.playback.position,
        },
        view.scrub_position matches Some(position) ==> match view.metadata.duration {
            Some(duration) => view.shown_position()@ == if position@ <= duration@ {
                position@
            } else {
                duration@
            },
            None => view.shown_position() == position,
        },
        view.metadata.duration is None && view.scrub_position is None ==> view.shown_position()
            == view.playback.position,
{
}

/// Times are shown with milliseconds exactly in files that are known to be shorter than a
/// second.
pub proof fn law_short_files_are_shown_finely(view: AudioView)
    ensures
        view.metadata.duration matches Some(duration) ==> (view.fine() <==> duration@
            < 1_000_000_000),
        view.metadata.duration is None ==> !view.fine(),
{
}

/// A step back or forth is one of five seconds.
pub proof fn law_steps_last_five_seconds()
    ensures
        SEEK_STEP_SECS * NANOS_PER_SEC == 5_000_000_000,
{
}

/// Analyses are counted on one by one, from the greatest number on to zero.
pub proof fn law_analyses_are_counted_on(last: u64)
    ensures
        last < 0xFFFF_FFFF_FFFF_FFFF ==> analysis_after(last) == last + 1,
        last == 0xFFFF_FFFF_FFFF_FFFF ==> analysis_after(last) == 0,
{
}

/// A view that was just opened shows nothing but the size of its file: nothing plays, nothing
/// is known of the sound, nothing went wrong, and nothing is pointed at.
pub proof fn law_a_new_view_knows_the_size(view: AudioView, item: AudioItem)
    requires
        view.opened(item),
        item.bytes@.len() <= u64::MAX,
    ensures
        view.playback.status == PlaybackStatus::Idle,
        view.playback.position@ == 0,
        !view.playback.connected,
        view.playback.error is None,
        view.playback.pending_seek_id is None,
        view.metadata.file_size == item.bytes@.len(),
        view.metadata.duration is None,
        view.metadata.channels is None,
        view.metadata.sample_rate is None,
        view.waveform is None,
        view.silence_ranges is None,
        view.metrics is None,
        view.analysis_error is None,
        view.scrub_position is None,
        view.hover_position is None,
        !view.seek_bar_hovered,
{
    crate::duration::lemma_empty_span();
}

/// Clearing a view takes the results of its analysis away, and nothing else.
pub proof fn law_clearing_takes_the_results(view: AudioView)
    ensures
        view.cleared().waveform is None,
        view.cleared().silence_ranges is None,
        view.cleared().metrics is None,
        view.cleared().analysis_error is None,
        view.cleared().playback == view.playback,
        view.cleared().metadata == view.metadata,
        view.cleared().analysis == view.analysis,
        view.cleared().scrub_position == view.scrub_position,
        view.cleared().hover_position == view.hover_position,
        view.cleared().seek_bar_hovered == view.seek_bar_hovered,
{
}

/// What is known of contents that were not analyzed is how many bytes they have.
pub proof fn law_unanalyzed_files_have_a_size(bytes: Seq<u8>)
    requires
        bytes.len() <= u64::MAX,
    ensures
        unanalyzed(bytes).file_size == bytes.len(),
        unanalyzed(bytes).duration is None,
        unanalyzed(bytes).channels is None,
        unanalyzed(bytes).sample_rate is None,
{
}

/// An analysis is asked for with the contents of the file as they are, under its own number,
/// and with the extension of the file as a hint.
pub proof fn law_an_analysis_reads_the_contents(
    request: AnalysisRequest,
    item: AudioItem,
    number: u64,
)
    requires
        asks_for(request, item, number),
    ensures
        request.number == number,
        request.bytes == item.bytes,
        request.format_hint is None <==> extension_of(item.file.path@) is None,
        request.format_hint matches Some(hint) ==> extension_of(item.file.path@) == Some(hint@),
{
}

/// The volume follows the pointer wherever it is over the bar, and only there.
pub proof fn law_the_volume_follows_the_pointer(pointer: VolumePointer, volume: Sample)
    ensures
        pointed_volume(pointer) == Some(volume) <==> pointer == VolumePointer::At(volume),
{
}

/// A step forward and one back again lead to where they started, unless the file ends before.
/// A step never leads out of the file, and where nothing is in its way it is one of five
/// seconds.
pub proof fn law_steps_undo_each_other(view: AudioView, position: nat)
    requires
        position + 5_000_000_000 <= MAX_NANOS,
    ensures
        view.metadata.duration matches Some(duration) ==> {
            &&& view.step_forward(position) <= duration@
            &&& position + 5_000_000_000 <= duration@ ==> view.step_forward(position) == position
                + 5_000_000_000
            &&& position + 5_000_000_000 > duration@ ==> view.step_forward(position) == duration@
        },
        view.metadata.duration is None ==> view.step_forward(position) == position + 5_000_000_000,
        position < 5_000_000_000 ==> AudioView::step_back(position) == 0,
        position >= 5_000_000_000 ==> AudioView::step_back(position) == position - 5_000_000_000,
        view.step_forward(position) == position + 5_000_000_000 ==> AudioView::step_back(
            view.step_forward(position),
        ) == position,
{
}

/// Dragging ends where it was let go: the view shows each position that is dragged over, and
/// playback is then moved to the last of them. Nothing but the dragging is touched.
pub proof fn law_dragging_ends_where_it_is_let_go(
    view: AudioView,
    duration: Duration,
    first: Duration,
    last: Duration,
)
    requires
        view.metadata.duration == Some(duration),
        first@ <= duration@,
        last@ <= duration@,
    ensures
        ({
            let pressed = view.pressed(Pointer::At(first));
            let dragged = pressed.hovered(Pointer::At(last), true);
            let done = dragged.let_go();
            &&& pressed.shown_position() == first
            &&& dragged.shown_position() == last
            &&& dragged.scrub_position == Some(last)
            &&& dragged.hover_position == Some(last)
            &&& done.scrub_position is None
            &&& done.hover_position == Some(last)
            &&& done == (AudioView { scrub_position: None, hover_position: Some(last), ..view })
            &&& done.let_go() == done
        }),
{
}

/// Moving without the button held shows where the pointer is and drags nothing; what is being
/// dragged keeps its mark when the pointer leaves, and what is not loses it. A waveform that
/// has not been laid out takes no notice.
pub proof fn law_hovering_drags_nothing(view: AudioView, position: Duration, held: bool)
    requires
        view.metadata.duration is Some,
    ensures
        view.hovered(Pointer::At(position), false) == (AudioView {
            hover_position: Some(position),
            ..view
        }),
        view.pressed(Pointer::NotLaidOut) == view,
        view.hovered(Pointer::NotLaidOut, held) == view,
        view.pressed(Pointer::Nowhere).scrub_position is None,
        view.pressed(Pointer::Nowhere).hover_position is None,
        view.pointed_at(true) == (AudioView { seek_bar_hovered: true, ..view }),
        view.scrub_position is Some ==> view.pointed_at(false) == (AudioView {
            seek_bar_hovered: false,
            ..view
        }),
        view.scrub_position is None ==> view.pointed_at(false) == (AudioView {
            seek_bar_hovered: false,
            hover_position: None,
            ..view
        }),
{
}

/// Contents that were read again are shown from scratch: the file is stopped, nothing is known
/// of it but its new size, and what an analysis of the old contents finds is no longer taken.
pub proof fn law_new_contents_start_afresh(
    view: AudioView,
    item: AudioItem,
    late: AudioView,
    outdated: Result<AudioAnalysis, String>,
)
    requires
        item.bytes@.len() <= u64::MAX,
        view.told(AudioItemEvent::Reloaded, item, Ok(())).takes(late, view.analysis, outdated),
    ensures
        ({
            let fresh = view.told(AudioItemEvent::Reloaded, item, Ok(()));
            &&& late == fresh
            &&& fresh.metadata.file_size == item.bytes@.len()
            &&& fresh.metadata.duration is None
            &&& fresh.waveform is None
            &&& fresh.silence_ranges is None
            &&& fresh.metrics is None
            &&& fresh.analysis_error is None
            &&& fresh.scrub_position is None
            &&& fresh.hover_position is None
            &&& fresh.playback.status == PlaybackStatus::Idle
            &&& fresh.playback.position@ == 0
            &&& fresh.analysis != view.analysis
            &&& fresh.seek_bar_hovered == view.seek_bar_hovered
        }),
{
    crate::duration::lemma_empty_span();
}

/// A file that was moved, deleted or is about to be read again is stopped, and what is known of
/// it stays until it was.
pub proof fn law_other_news_keep_what_is_known(
    view: AudioView,
    item: AudioItem,
    event: AudioItemEvent,
)
    requires
        event == AudioItemEvent::ReloadNeeded || event == AudioItemEvent::FileHandleChanged,
    ensures
        ({
            let now = view.told(event, item, Ok(()));
            &&& now.playback.status == PlaybackStatus::Idle
            &&& now.playback.position@ == 0
            &&& now.playback.error is None
            &&& now == (AudioView { playback: now.playback, ..view })
        }),
{
    crate::duration::lemma_empty_span();
}

/// An analysis that succeeds after one that failed takes its message back, and one that fails
/// after one that succeeded takes its results away, but not what is known of the file. Neither
/// touches playback.
pub proof fn law_an_analysis_replaces_the_last(
    view: AudioView,
    found: AudioView,
    lost: AudioView,
    analysis: AudioAnalysis,
    message: String,
)
    requires
        view.takes(found, view.analysis, Ok(analysis)),
        found.takes(lost, view.analysis, Err(message)),
    ensures
        found.analysis_error is None,
        found.metadata == analysis.metadata,
        found.waveform is Some && found.waveform->0@ == analysis.waveform@,
        found.silence_ranges is Some && found.silence_ranges->0@ == analysis.silence_ranges@,
        found.metrics is Some && *found.metrics->0 == analysis.metrics,
        lost.analysis_error == Some(message),
        lost.metadata == analysis.metadata,
        lost.waveform is None,
        lost.silence_ranges is None,
        lost.metrics is None,
        lost.playback == view.playback,
        lost.scrub_position == view.scrub_position,
        lost.hover_position == view.hover_position,
{
}

/// Toggling pauses exactly what plays or is about to, and plays anything else.
pub proof fn law_toggling_pauses_what_plays(view: AudioView)
    ensures
        view.toggles() == Toggle::Pause <==> view.playback.status == PlaybackStatus::Starting
            || view.playback.status == PlaybackStatus::Playing,
        view.toggles() == Toggle::Pause || view.toggles() == Toggle::Play,
{
}

} // verus!
