//! The side of playback that the view sees: what was asked for, what the playback
//! thread last told, and which of the two counts.
//!
//! Commands travel to the thread outside of this module. For each operation there is a
//! function that says which command is to be sent, and the operation itself, which is
//! handed what became of that command.

use std::sync::Arc;

use vstd::prelude::*;

use crate::duration::Duration;
use crate::playback::{
    copy_message, PlaybackAction, PlaybackCommand, PlaybackEvent, PlaybackSession,
    PlaybackSnapshot, PlaybackStatus,
};

verus! {

/// What became of a command: nothing, where it reached the thread, else the message.
pub type Delivery = Result<(), String>;

/// What the view knows about playback.
#[derive(Debug)]
pub struct PlaybackState {
    /// Whether there is a playback thread.
    pub connected: bool,
    pub status: PlaybackStatus,
    pub position: Duration,
    pub error: Option<String>,
    /// The identifier of the last seek.
    pub next_seek_id: u64,
    /// The seek that the thread has not yet completed.
    pub pending_seek_id: Option<u64>,
}

impl PlaybackState {
    /// The state before anything is played.
    pub open spec fn fresh() -> PlaybackState {
        PlaybackState {
            connected: false,
            status: PlaybackStatus::Idle,
            position: Duration::empty(),
            error: None,
            next_seek_id: 0,
            pending_seek_id: None,
        }
    }

    /// Whether a file is playing, or about to.
    pub open spec fn playing(self) -> bool {
        self.status == PlaybackStatus::Starting || self.status == PlaybackStatus::Playing
    }

    /// Whether the thread has, or is about to have, a player that can be moved.
    pub open spec fn seeks(self) -> bool {
        self.playing() || self.status == PlaybackStatus::Paused
    }

    /// The state after a command could not be handed over.
    pub open spec fn failed(self, message: String) -> PlaybackState {
        PlaybackState { status: PlaybackStatus::Failed, error: Some(message), ..self }
    }

    /// The state after a command was sent, if there is a thread: `sent` where it reached
    /// it, and otherwise a failure; with no thread, nothing changes.
    pub open spec fn after_sending(self, delivery: Delivery, sent: PlaybackState) -> PlaybackState {
        if !self.connected {
            self
        } else {
            match delivery {
                Ok(()) => sent,
                Err(message) => self.failed(message),
            }
        }
    }

    /// Whether `snapshot` was taken before the seek that is waited for. A failure is
    /// always news.
    pub open spec fn outdated(self, snapshot: PlaybackSnapshot) -> bool {
        &&& self.pending_seek_id matches Some(seek_id) && snapshot.completed_seek_id < seek_id
        &&& snapshot.status != PlaybackStatus::Failed
    }

    /// The state after the thread was asked how far it is.
    pub open spec fn synchronized(self, snapshot: PlaybackSnapshot) -> PlaybackState {
        if !self.connected || self.outdated(snapshot) {
            self
        } else {
            PlaybackState {
                status: snapshot.status,
                position: snapshot.position,
                error: snapshot.error,
                pending_seek_id: None,
                ..self
            }
        }
    }

    /// The state after playback was stopped. A thread that cannot be reached is given up.
    pub open spec fn stopped(self, delivery: Delivery) -> PlaybackState {
        if self.connected && delivery is Err {
            PlaybackState { connected: false, ..self.failed(delivery->Err_0) }
        } else {
            PlaybackState {
                status: PlaybackStatus::Idle,
                position: Duration::empty(),
                error: None,
                pending_seek_id: None,
                ..self
            }
        }
    }

    /// The state after playback was paused.
    pub open spec fn paused(self, delivery: Delivery) -> PlaybackState {
        self.after_sending(
            delivery,
            PlaybackState { status: PlaybackStatus::Paused, ..self },
        )
    }

    /// The identifier of the next seek: the one after the last, but never zero.
    pub open spec fn fresh_seek_id(self) -> u64 {
        if self.next_seek_id == u64::MAX {
            1
        } else {
            (self.next_seek_id + 1) as u64
        }
    }

    /// The state after a seek to `offset`.
    pub open spec fn sought(self, offset: Duration, delivery: Delivery) -> PlaybackState {
        if self.seeks() {
            let moved = PlaybackState {
                position: offset,
                next_seek_id: self.fresh_seek_id(),
                pending_seek_id: None,
                ..self
            };
            moved.after_sending(
                delivery,
                PlaybackState { pending_seek_id: Some(self.fresh_seek_id()), ..moved },
            )
        } else if self.status == PlaybackStatus::Failed {
            PlaybackState { position: offset, ..self }
        } else {
            PlaybackState {
                status: PlaybackStatus::Idle,
                position: offset,
                error: None,
                ..self
            }
        }
    }

    /// Where playback starts: a file that was played to its end starts again.
    pub open spec fn start(self) -> Duration {
        if self.status == PlaybackStatus::Finished {
            Duration::empty()
        } else {
            self.position
        }
    }

    /// Whether playing needs a thread that there is not.
    pub open spec fn wants_thread(self) -> bool {
        !self.seeks() && !self.connected
    }

    /// The state after a thread was started for playing, or could not be.
    pub open spec fn threaded(self, started: Delivery) -> PlaybackState {
        if !self.wants_thread() {
            self
        } else {
            let moved = PlaybackState { position: self.start(), ..self };
            match started {
                Ok(()) => PlaybackState { connected: true, ..moved },
                Err(message) => moved.failed(message),
            }
        }
    }

    /// The state after playing was asked for, where there was a thread for it.
    pub open spec fn played(self, delivery: Delivery) -> PlaybackState {
        if self.playing() {
            self
        } else if self.status == PlaybackStatus::Paused {
            self.after_sending(
                delivery,
                PlaybackState { status: PlaybackStatus::Playing, error: None, ..self },
            )
        } else {
            let moved = PlaybackState { position: self.start(), ..self };
            moved.after_sending(
                delivery,
                PlaybackState { status: PlaybackStatus::Starting, error: None, ..moved },
            )
        }
    }

    /// The command that playing the file takes.
    pub open spec fn play_order(
        self,
        bytes: Arc<Vec<u8>>,
        format_hint: Option<String>,
    ) -> Option<PlaybackCommand> {
        if self.playing() || !self.connected {
            None
        } else if self.status == PlaybackStatus::Paused {
            Some(PlaybackCommand::Resume)
        } else {
            Some(PlaybackCommand::LoadAndPlay { bytes, format_hint, offset: self.start() })
        }
    }

    /// The command that stopping takes.
    pub open spec fn stop_order(self) -> Option<PlaybackCommand> {
        if self.connected {
            Some(PlaybackCommand::Stop)
        } else {
            None
        }
    }

    /// The command that pausing takes.
    pub open spec fn pause_order(self) -> Option<PlaybackCommand> {
        if self.connected {
            Some(PlaybackCommand::Pause)
        } else {
            None
        }
    }

    /// The command that a seek to `offset` takes.
    pub open spec fn seek_order(self, offset: Duration) -> Option<PlaybackCommand> {
        if self.connected && self.seeks() {
            Some(PlaybackCommand::Seek { position: offset, seek_id: self.fresh_seek_id() })
        } else {
            None
        }
    }

    /// The position that the thread is to tell after a seek to `offset`, where nothing plays.
    pub open spec fn idle_position(self, offset: Duration) -> Option<Duration> {
        if self.connected && !self.seeks() && self.status != PlaybackStatus::Failed {
            Some(offset)
        } else {
            None
        }
    }

    /// Where playback is.
    pub fn position(&self) -> (position: Duration)
        ensures
            position == self.position,
    {
        self.position
    }

    /// Whether a file is playing, or about to.
    pub fn is_playing(&self) -> (playing: bool)
        ensures
            playing == self.playing(),
    {
        self.status == PlaybackStatus::Starting || self.status == PlaybackStatus::Playing
    }

    /// Whether the file was played to its end.
    pub fn is_finished(&self) -> (finished: bool)
        ensures
            finished == (self.status == PlaybackStatus::Finished),
    {
        self.status == PlaybackStatus::Finished
    }

    /// What went wrong last, if it still matters.
    pub fn error(&self) -> (error: Option<String>)
        ensures
            error == self.error,
    {
        copy_message(&self.error)
    }

    /// Whether the file is paused.
    pub fn is_paused(&self) -> (paused: bool)
        ensures
            paused == (self.status == PlaybackStatus::Paused),
    {
        self.status == PlaybackStatus::Paused
    }

    /// Takes over what the thread tells, unless that is from before a seek that is still
    /// waited for.
    pub fn synchronize(&mut self, snapshot: PlaybackSnapshot)
        ensures
            *final(self) == old(self).synchronized(snapshot),
    {
        if !self.connected {
            return;
        }
        let behind = match self.pending_seek_id {
            Some(seek_id) => snapshot.completed_seek_id < seek_id,
            None => false,
        };
        if behind && snapshot.status != PlaybackStatus::Failed {
            return;
        }
        self.pending_seek_id = None;
        self.status = snapshot.status;
        self.position = snapshot.position;
        self.error = snapshot.error;
    }

    /// Takes note of what became of a command: whether it reached the thread.
    pub fn send(&mut self, delivery: Delivery) -> (sent: bool)
        ensures
            sent == (old(self).connected && delivery is Ok),
            *final(self) == old(self).after_sending(delivery, *old(self)),
    {
        if !self.connected {
            return false;
        }
        match delivery {
            Ok(()) => true,
            Err(message) => {
                self.status = PlaybackStatus::Failed;
                self.error = Some(message);
                false
            },
        }
    }

    /// The command that stopping takes.
    pub fn stop_command(&self) -> (command: Option<PlaybackCommand>)
        ensures
            command == if self.connected {
                Some(PlaybackCommand::Stop)
            } else {
                None
            },
            command == self.stop_order(),
    {
        if self.connected {
            Some(PlaybackCommand::Stop)
        } else {
            None
        }
    }

    /// Stops playback, once [`PlaybackState::stop_command`] was sent.
    pub fn stop(&mut self, delivery: Delivery)
        ensures
            *final(self) == old(self).stopped(delivery),
    {
        if self.connected && !self.send(delivery) {
            self.connected = false;
            return;
        }
        self.status = PlaybackStatus::Idle;
        self.position = Duration::zero();
        self.error = None;
        self.pending_seek_id = None;
    }

    /// The command that pausing takes.
    pub fn pause_command(&self) -> (command: Option<PlaybackCommand>)
        ensures
            command == if self.connected {
                Some(PlaybackCommand::Pause)
            } else {
                None
            },
            command == self.pause_order(),
    {
        if self.connected {
            Some(PlaybackCommand::Pause)
        } else {
            None
        }
    }

    /// Pauses playback, once [`PlaybackState::pause_command`] was sent.
    pub fn pause(&mut self, delivery: Delivery)
        ensures
            *final(self) == old(self).paused(delivery),
    {
        if self.send(delivery) {
            self.status = PlaybackStatus::Paused;
        }
    }

    /// The identifier of the next seek.
    fn following_seek_id(&self) -> (seek_id: u64)
        ensures
            seek_id == self.fresh_seek_id(),
    {
        let next: u64 = self.next_seek_id.wrapping_add(1);
        if next < 1 {
            1
        } else {
            next
        }
    }

    /// The command that a seek to `offset` takes.
    pub fn seek_command(&self, offset: Duration) -> (command: Option<PlaybackCommand>)
        ensures
            command == if self.connected && self.seeks() {
                Some(
                    PlaybackCommand::Seek { position: offset, seek_id: self.fresh_seek_id() },
                )
            } else {
                None
            },
            command == self.seek_order(offset),
    {
        if self.connected && (self.is_playing() || self.is_paused()) {
            Some(PlaybackCommand::Seek { position: offset, seek_id: self.following_seek_id() })
        } else {
            None
        }
    }

    /// Moves to `offset`, once [`PlaybackState::seek_command`] was sent. Where nothing
    /// plays, gives the position that the thread's snapshot is to take.
    pub fn seek_to(&mut self, offset: Duration, delivery: Delivery) -> (idle_position: Option<
        Duration,
    >)
        ensures
            *final(self) == old(self).sought(offset, delivery),
            idle_position == if old(self).connected && (old(self).status == PlaybackStatus::Idle
                || old(self).status == PlaybackStatus::Finished) {
                Some(offset)
            } else {
                None
            },
            idle_position == old(self).idle_position(offset),
    {
        self.position = offset;
        if self.is_playing() || self.is_paused() {
            let seek_id: u64 = self.following_seek_id();
            self.next_seek_id = seek_id;
            self.pending_seek_id = Some(seek_id);
            if !self.send(delivery) {
                self.pending_seek_id = None;
            }
            None
        } else if self.status == PlaybackStatus::Idle || self.status == PlaybackStatus::Finished {
            self.status = PlaybackStatus::Idle;
            self.error = None;
            if self.connected {
                Some(offset)
            } else {
                None
            }
        } else {
            None
        }
    }

    /// Whether a playback thread is to be started before playing.
    pub fn needs_thread(&self) -> (needed: bool)
        ensures
            needed == self.wants_thread(),
    {
        !self.is_playing() && !self.is_paused() && !self.connected
    }

    /// Takes note of the playback thread that was started for playing, or of why it could
    /// not be.
    pub fn connect(&mut self, started: Delivery)
        ensures
            *final(self) == old(self).threaded(started),
    {
        if !self.needs_thread() {
            return;
        }
        if self.status == PlaybackStatus::Finished {
            self.position = Duration::zero();
        }
        match started {
            Ok(()) => {
                self.connected = true;
            },
            Err(message) => {
                self.status = PlaybackStatus::Failed;
                self.error = Some(message);
            },
        }
    }

    /// The command that playing takes, where there is a thread for it.
    pub fn play_command(&self, bytes: Arc<Vec<u8>>, format_hint: Option<String>) -> (command:
        Option<PlaybackCommand>)
        ensures
            command == self.play_order(bytes, format_hint),
    {
        if self.is_playing() || !self.connected {
            return None;
        }
        if self.is_paused() {
            return Some(PlaybackCommand::Resume);
        }
        let offset = if self.is_finished() {
            Duration::zero()
        } else {
            self.position
        };
        Some(PlaybackCommand::LoadAndPlay { bytes, format_hint, offset })
    }

    /// Plays the file, once [`PlaybackState::play_command`] was sent.
    pub fn play(&mut self, delivery: Delivery)
        ensures
            *final(self) == old(self).played(delivery),
    {
        if self.is_playing() {
            return;
        }
        if self.is_paused() {
            if self.send(delivery) {
                self.status = PlaybackStatus::Playing;
                self.error = None;
            }
            return;
        }
        if self.status == PlaybackStatus::Finished {
            self.position = Duration::zero();
        }
        if self.send(delivery) {
            self.status = PlaybackStatus::Starting;
            self.error = None;
        }
    }
}

impl Default for PlaybackState {
    /// The state before anything is played.
    fn default() -> (state: Self)
        ensures
            state == PlaybackState::fresh(),
    {
        PlaybackState {
            connected: false,
            status: PlaybackStatus::Idle,
            position: Duration::zero(),
            error: None,
            next_seek_id: 0,
            pending_seek_id: None,
        }
    }
}

/// While a seek is waited for, nothing that the thread told before it, short of a
/// failure, changes what the view shows.
pub proof fn law_pending_seek_hides_older_news(
    state: PlaybackState,
    seek_id: u64,
    snapshot: PlaybackSnapshot,
)
    requires
        state.pending_seek_id == Some(seek_id),
        snapshot.completed_seek_id < seek_id,
        snapshot.status != PlaybackStatus::Failed,
    ensures
        state.synchronized(snapshot) == state,
{
}

/// A failure that the thread tells is shown at once, and ends the wait for a seek.
pub proof fn law_failure_is_shown(state: PlaybackState, snapshot: PlaybackSnapshot)
    requires
        state.connected,
        snapshot.status == PlaybackStatus::Failed,
    ensures
        state.synchronized(snapshot).status == PlaybackStatus::Failed,
        state.synchronized(snapshot).error == snapshot.error,
        state.synchronized(snapshot).pending_seek_id is None,
{
}

/// Asking the thread twice for the same snapshot shows nothing new.
pub proof fn law_synchronizing_twice(state: PlaybackState, snapshot: PlaybackSnapshot)
    ensures
        state.synchronized(snapshot).synchronized(snapshot) == state.synchronized(snapshot),
{
}

/// No seek is numbered zero, nor like the one before it; short of the last number there
/// is, each is numbered higher than the one before.
pub proof fn law_seek_ids(state: PlaybackState)
    ensures
        state.fresh_seek_id() != 0,
        state.fresh_seek_id() != state.next_seek_id,
        state.next_seek_id < u64::MAX ==> state.fresh_seek_id() > state.next_seek_id,
{
}

/// Whether the seek that is waited for, if there is one, is the last that was asked for, and
/// the file was neither put back nor played to its end since.
pub open spec fn waits_for_last_seek(state: PlaybackState) -> bool {
    state.pending_seek_id matches Some(seek_id) ==> {
        &&& seek_id == state.next_seek_id
        &&& seek_id > 0
        &&& state.status != PlaybackStatus::Idle
        &&& state.status != PlaybackStatus::Finished
    }
}

/// Whatever is done, only the last seek is ever waited for, and none where nothing plays.
pub proof fn law_only_the_last_seek_is_pending(
    state: PlaybackState,
    offset: Duration,
    delivery: Delivery,
    snapshot: PlaybackSnapshot,
)
    requires
        waits_for_last_seek(state),
    ensures
        waits_for_last_seek(PlaybackState::fresh()),
        waits_for_last_seek(state.synchronized(snapshot)),
        waits_for_last_seek(state.stopped(delivery)),
        waits_for_last_seek(state.paused(delivery)),
        waits_for_last_seek(state.sought(offset, delivery)),
        waits_for_last_seek(state.threaded(delivery)),
        waits_for_last_seek(state.played(delivery)),
{
}

/// From the moment a seek is sent the view shows the position that was asked for: while
/// the thread has not come to it, and once it has moved its player there.
pub proof fn law_seek_shows_its_target(
    state: PlaybackState,
    offset: Duration,
    session: PlaybackSession,
    snapshot: PlaybackSnapshot,
)
    requires
        state.connected,
        state.seeks(),
        session != PlaybackSession::Absent,
        snapshot.completed_seek_id <= state.next_seek_id < u64::MAX,
        snapshot.status != PlaybackStatus::Failed,
    ensures
        ({
            let seek_id = state.fresh_seek_id();
            let order = PlaybackCommand::Seek { position: offset, seek_id };
            let done = PlaybackEvent::SeekDone { position: offset, seek_id };
            let sought = state.sought(offset, Ok(()));
            let moved = crate::playback::next_snapshot(done, session, snapshot);
            &&& sought.position == offset
            &&& sought.synchronized(snapshot) == sought
            &&& crate::playback::next_action(PlaybackEvent::Received(order), session, snapshot)
                == PlaybackAction::Seek { position: offset, seek_id }
            &&& crate::playback::next_snapshot(PlaybackEvent::Received(order), session, snapshot) == snapshot
            &&& sought.synchronized(moved).position == offset
            &&& sought.synchronized(moved).status == snapshot.status
            &&& sought.synchronized(moved).error is None
            &&& sought.synchronized(moved).pending_seek_id is None
        }),
{
}

/// Stopping shows the beginning of the file, idle and without a message, and the thread
/// tells the same once it has come to the command, and has no player.
pub proof fn law_stop_returns_to_the_beginning(
    state: PlaybackState,
    session: PlaybackSession,
    snapshot: PlaybackSnapshot,
)
    requires
        state.connected,
    ensures
        ({
            let order = PlaybackEvent::Received(PlaybackCommand::Stop);
            let stopped = state.stopped(Ok(()));
            &&& stopped.status == PlaybackStatus::Idle
            &&& stopped.position@ == 0
            &&& stopped.error is None
            &&& stopped.pending_seek_id is None
            &&& crate::playback::next_session(order, session, snapshot) == PlaybackSession::Absent
            &&& stopped.synchronized(crate::playback::next_snapshot(order, session, snapshot)) == stopped
        }),
{
    crate::duration::lemma_empty_span();
}

/// Playing a file that is neither playing nor paused starts it where it is, or at the
/// beginning where it was played to its end; once the thread has opened it, the view shows
/// it as playing from there.
pub proof fn law_play_starts_the_file(
    state: PlaybackState,
    bytes: Arc<Vec<u8>>,
    format_hint: Option<String>,
    session: PlaybackSession,
    snapshot: PlaybackSnapshot,
)
    requires
        state.connected,
        !state.seeks(),
        state.pending_seek_id is None,
    ensures
        state.play_order(bytes, format_hint) is Some,
        ({
            let order = PlaybackEvent::Received(state.play_order(bytes, format_hint)->0);
            let played = state.played(Ok(()));
            let opening = crate::playback::next_snapshot(order, session, snapshot);
            let opened = crate::playback::next_snapshot(PlaybackEvent::Started, session, opening);
            &&& played.status == PlaybackStatus::Starting
            &&& played.position == state.start()
            &&& state.status == PlaybackStatus::Finished ==> played.position@ == 0
            &&& crate::playback::next_action(order, session, snapshot) == PlaybackAction::Start {
                bytes,
                format_hint,
                offset: state.start(),
            }
            &&& crate::playback::next_session(PlaybackEvent::Started, session, opening) == PlaybackSession::Running
            &&& played.synchronized(opening) == played
            &&& played.synchronized(opened) == (PlaybackState {
                status: PlaybackStatus::Playing,
                ..played
            })
        }),
{
    crate::duration::lemma_empty_span();
}

/// Pausing a file and playing it again lets the thread's player go on where it was.
pub proof fn law_pause_and_resume(
    state: PlaybackState,
    bytes: Arc<Vec<u8>>,
    format_hint: Option<String>,
    session: PlaybackSession,
    snapshot: PlaybackSnapshot,
    position: Duration,
)
    requires
        state.connected,
        state.playing(),
        state.pending_seek_id is None,
        session != PlaybackSession::Absent,
    ensures
        ({
            let paused = state.paused(Ok(()));
            let told = crate::playback::next_snapshot(PlaybackEvent::Paused { position }, session, snapshot);
            let resumed = crate::playback::next_snapshot(PlaybackEvent::Resumed, session, told);
            let shown = paused.synchronized(told);
            &&& paused == (PlaybackState { status: PlaybackStatus::Paused, ..state })
            &&& shown.status == PlaybackStatus::Paused
            &&& shown.position == position
            &&& shown.play_order(bytes, format_hint) == Some(PlaybackCommand::Resume)
            &&& crate::playback::next_action(
                PlaybackEvent::Received(PlaybackCommand::Resume),
                session,
                told,
            ) == PlaybackAction::Resume
            &&& shown.played(Ok(())).synchronized(resumed).status == PlaybackStatus::Playing
            &&& shown.played(Ok(())).synchronized(resumed).position == position
        }),
{
}

/// What the thread tells is taken over as a whole, and ends the wait for a seek, wherever that
/// has been completed or none is waited for. Without a thread nothing is taken over.
pub proof fn law_news_is_taken_over(state: PlaybackState, snapshot: PlaybackSnapshot)
    ensures
        !state.connected ==> state.synchronized(snapshot) == state,
        state.connected && (state.pending_seek_id matches Some(seek_id) ==> seek_id
            <= snapshot.completed_seek_id) ==> {
            let now = state.synchronized(snapshot);
            &&& now.status == snapshot.status
            &&& now.position == snapshot.position
            &&& now.error == snapshot.error
            &&& now.pending_seek_id is None
            &&& now.next_seek_id == state.next_seek_id
            &&& now.connected
        },
        state.connected && snapshot.status == PlaybackStatus::Failed ==> {
            let now = state.synchronized(snapshot);
            &&& now.status == PlaybackStatus::Failed
            &&& now.position == snapshot.position
            &&& now.error == snapshot.error
            &&& now.pending_seek_id is None
            &&& now.next_seek_id == state.next_seek_id
            &&& now.connected
        },
{
}

/// A command that does not reach the thread leaves a failure behind, with its message. A
/// thread that could not be stopped is given up, and a seek that was not sent is not waited
/// for.
pub proof fn law_lost_commands_are_failures(
    state: PlaybackState,
    offset: Duration,
    message: String,
)
    requires
        state.connected,
    ensures
        state.paused(Err(message)) == (PlaybackState {
            status: PlaybackStatus::Failed,
            error: Some(message),
            ..state
        }),
        state.stopped(Err(message)) == (PlaybackState {
            connected: false,
            status: PlaybackStatus::Failed,
            error: Some(message),
            ..state
        }),
        !state.playing() ==> state.played(Err(message)).status == PlaybackStatus::Failed
            && state.played(Err(message)).error == Some(message) && state.played(
            Err(message),
        ).connected,
        state.seeks() ==> {
            let lost = state.sought(offset, Err(message));
            &&& lost.status == PlaybackStatus::Failed
            &&& lost.error == Some(message)
            &&& lost.position == offset
            &&& lost.pending_seek_id is None
            &&& lost.connected
        },
{
}

/// Without a thread nothing can be paused, stopping still returns to the beginning, and
/// playing waits for a thread, with a file that was played to its end back at its beginning.
pub proof fn law_without_a_thread(state: PlaybackState, delivery: Delivery)
    requires
        !state.connected,
    ensures
        state.paused(delivery) == state,
        state.stopped(delivery).status == PlaybackStatus::Idle,
        state.stopped(delivery).position@ == 0,
        state.stopped(delivery).error is None,
        state.stopped(delivery).pending_seek_id is None,
        !state.stopped(delivery).connected,
        state.stopped(delivery).next_seek_id == state.next_seek_id,
        state.status == PlaybackStatus::Finished ==> state.played(delivery).position@ == 0,
        state.status != PlaybackStatus::Finished ==> state.played(delivery).position
            == state.position,
        state.played(delivery).status == state.status,
        state.played(delivery).error == state.error,
        state.played(delivery).pending_seek_id == state.pending_seek_id,
        !state.played(delivery).connected,
{
    crate::duration::lemma_empty_span();
}

/// A seek always shows its target. Where a player can be moved, the thread is asked for it
/// under the next number, which is then waited for; where nothing plays, the file is idle
/// there, without a message; and a failure stays a failure, with its message.
pub proof fn law_seeks_move_the_position(
    state: PlaybackState,
    offset: Duration,
    delivery: Delivery,
)
    ensures
        state.sought(offset, delivery).position == offset,
        state.sought(offset, delivery).connected == state.connected,
        ({
            let sought = state.sought(offset, delivery);
            let number = if state.next_seek_id == 0xFFFF_FFFF_FFFF_FFFF {
                1
            } else {
                state.next_seek_id + 1
            };
            let moves = state.status == PlaybackStatus::Starting || state.status
                == PlaybackStatus::Playing || state.status == PlaybackStatus::Paused;
            &&& moves ==> sought.next_seek_id == number
            &&& moves && !state.connected ==> sought.pending_seek_id is None && sought.status
                == state.status && sought.error == state.error
            &&& moves && state.connected && delivery is Ok ==> sought.pending_seek_id == Some(
                number as u64,
            ) && sought.status == state.status && sought.error == state.error
            &&& !moves ==> sought.next_seek_id == state.next_seek_id && sought.pending_seek_id
                == state.pending_seek_id
            &&& state.status == PlaybackStatus::Idle || state.status == PlaybackStatus::Finished
                ==> sought.status == PlaybackStatus::Idle && sought.error is None
            &&& state.status == PlaybackStatus::Failed ==> sought.status == PlaybackStatus::Failed
                && sought.error == state.error
        }),
{
}

/// Playing a file that plays changes nothing and takes no command; one that is paused goes
/// on; and any other is started, from its beginning where it was played to its end, and else
/// from where it is. Either takes an earlier message back.
pub proof fn law_playing_goes_on_or_starts(
    state: PlaybackState,
    bytes: Arc<Vec<u8>>,
    format_hint: Option<String>,
)
    requires
        state.connected,
    ensures
        state.status == PlaybackStatus::Starting || state.status == PlaybackStatus::Playing
            ==> state.played(Ok(())) == state && state.play_order(bytes, format_hint) is None,
        state.status == PlaybackStatus::Paused ==> {
            &&& state.played(Ok(())) == (PlaybackState {
                status: PlaybackStatus::Playing,
                error: None,
                ..state
            })
            &&& state.play_order(bytes, format_hint) == Some(PlaybackCommand::Resume)
        },
        state.status == PlaybackStatus::Idle || state.status == PlaybackStatus::Failed ==> {
            &&& state.played(Ok(())) == (PlaybackState {
                status: PlaybackStatus::Starting,
                error: None,
                ..state
            })
            &&& state.play_order(bytes, format_hint) == Some(
                PlaybackCommand::LoadAndPlay { bytes, format_hint, offset: state.position },
            )
        },
        state.status == PlaybackStatus::Finished ==> {
            &&& state.played(Ok(())).status == PlaybackStatus::Starting
            &&& state.played(Ok(())).position@ == 0
            &&& state.played(Ok(())).error is None
            &&& state.played(Ok(())).pending_seek_id == state.pending_seek_id
            &&& state.play_order(bytes, format_hint) matches Some(PlaybackCommand::LoadAndPlay {
                bytes: same_bytes,
                format_hint: same_hint,
                offset,
            })
            &&& same_bytes == bytes
            &&& same_hint == format_hint
            &&& offset@ == 0
        },
{
    crate::duration::lemma_empty_span();
}

/// A thread is started for playing exactly where there is none and the file is neither
/// playing nor paused. It changes nothing but that there is one, and that a file that was
/// played to its end is back at its beginning; one that could not be started is a failure.
pub proof fn law_a_thread_is_started_once(state: PlaybackState, message: String)
    ensures
        state.wants_thread() <==> !state.connected && state.status != PlaybackStatus::Starting
            && state.status != PlaybackStatus::Playing && state.status != PlaybackStatus::Paused,
        !state.wants_thread() ==> state.threaded(Ok(())) == state && state.threaded(Err(message))
            == state,
        state.wants_thread() ==> {
            let started = state.threaded(Ok(()));
            let failed = state.threaded(Err(message));
            &&& started.connected
            &&& !started.wants_thread()
            &&& started.status == state.status
            &&& started.error == state.error
            &&& started.pending_seek_id == state.pending_seek_id
            &&& started.next_seek_id == state.next_seek_id
            &&& !failed.connected
            &&& failed.status == PlaybackStatus::Failed
            &&& failed.error == Some(message)
            &&& failed.position == started.position
            &&& state.status == PlaybackStatus::Finished ==> started.position@ == 0
            &&& state.status != PlaybackStatus::Finished ==> started.position == state.position
        },
{
    crate::duration::lemma_empty_span();
}

/// Before anything is played there is no thread, no position, no message and no seek.
pub proof fn law_playback_starts_idle()
    ensures
        !PlaybackState::fresh().connected,
        PlaybackState::fresh().status == PlaybackStatus::Idle,
        PlaybackState::fresh().position@ == 0,
        PlaybackState::fresh().error is None,
        PlaybackState::fresh().next_seek_id == 0,
        PlaybackState::fresh().pending_seek_id is None,
{
    crate::duration::lemma_empty_span();
}

/// A file that is starting counts as playing; one that is starting, playing or paused can be
/// moved.
pub proof fn law_what_counts_as_playing(state: PlaybackState)
    ensures
        state.playing() <==> state.status == PlaybackStatus::Starting || state.status
            == PlaybackStatus::Playing,
        state.seeks() <==> state.status == PlaybackStatus::Starting || state.status
            == PlaybackStatus::Playing || state.status == PlaybackStatus::Paused,
{
}

/// Commands that reach the thread change what they are about and nothing else: pausing only
/// the status, and stopping the status, the position, the message and the wait for a seek.
pub proof fn law_commands_change_what_they_are_about(
    state: PlaybackState,
    message: String,
)
    requires
        state.connected,
    ensures
        state.paused(Ok(())) == (PlaybackState { status: PlaybackStatus::Paused, ..state }),
        state.stopped(Ok(())).connected,
        state.stopped(Ok(())).next_seek_id == state.next_seek_id,
        state.stopped(Ok(())).status == PlaybackStatus::Idle,
        state.stopped(Ok(())).position@ == 0,
        state.stopped(Ok(())).error is None,
        state.stopped(Ok(())).pending_seek_id is None,
        state.played(Ok(())).next_seek_id == state.next_seek_id,
        state.played(Ok(())).connected,
        state.played(Err(message)).next_seek_id == state.next_seek_id,
        state.played(Err(message)).pending_seek_id == state.pending_seek_id,
        state.played(Err(message)).position == state.played(Ok(())).position,
        state.playing() ==> state.played(Err(message)) == state,
{
    crate::duration::lemma_empty_span();
}

/// What is asked of the thread is what is then shown: a seek goes to the position that is
/// shown and bears the number that is waited for; where nothing plays, the thread is to tell
/// that position instead; and never both. Without a thread nothing is asked of one.
pub proof fn law_orders_are_what_is_shown(
    state: PlaybackState,
    offset: Duration,
    bytes: Arc<Vec<u8>>,
    format_hint: Option<String>,
    snapshot: PlaybackSnapshot,
)
    ensures
        !state.connected ==> {
            &&& state.stop_order() is None
            &&& state.pause_order() is None
            &&& state.seek_order(offset) is None
            &&& state.idle_position(offset) is None
            &&& state.play_order(bytes, format_hint) is None
        },
        state.connected ==> state.stop_order() == Some(PlaybackCommand::Stop)
            && state.pause_order() == Some(PlaybackCommand::Pause),
        state.seek_order(offset) matches Some(order) ==> {
            &&& order matches PlaybackCommand::Seek { position, seek_id }
            &&& position == state.sought(offset, Ok(())).position
            &&& state.sought(offset, Ok(())).pending_seek_id == Some(seek_id)
            &&& state.sought(offset, Ok(())).next_seek_id == seek_id
            &&& state.idle_position(offset) is None
        },
        state.connected && (state.status == PlaybackStatus::Starting || state.status
            == PlaybackStatus::Playing || state.status == PlaybackStatus::Paused)
            ==> state.seek_order(offset) is Some,
        state.connected && (state.status == PlaybackStatus::Idle || state.status
            == PlaybackStatus::Finished) ==> state.idle_position(offset) == Some(offset),
        state.status == PlaybackStatus::Failed ==> state.idle_position(offset) is None
            && state.seek_order(offset) is None,
        state.pending_seek_id is None ==> (state.idle_position(offset) matches Some(position) ==> {
            let told = crate::playback::idle_at(snapshot, position);
            &&& state.sought(offset, Ok(())).synchronized(told) == state.sought(offset, Ok(()))
        }),
{
}

} // verus!
