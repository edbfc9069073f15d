//! The thread that plays a file: what it does about each command and each report of
//! its player, and what it tells the rest of the program.
//!
//! The thread owns the player. It is driven from outside: [`playback_thread`] is handed
//! what happened last, and says what is to be done next.

use std::sync::Arc;

use vstd::prelude::*;
use vstd::string::*;

use crate::duration::{lemma_empty_span, Duration};

verus! {

/// How often the position is taken while a file plays, in milliseconds.
pub const PLAYBACK_POSITION_UPDATE_MILLIS: u64 = 8;

/// What playback is doing.
#[derive(Clone, Copy, Debug, PartialEq, Eq, Structural)]
pub enum PlaybackStatus {
    Idle,
    Starting,
    Playing,
    Paused,
    Finished,
    Failed,
}

/// What the playback thread tells the rest of the program.
#[derive(Debug)]
pub struct PlaybackSnapshot {
    pub status: PlaybackStatus,
    pub position: Duration,
    pub error: Option<String>,
    /// The seek that was completed last.
    pub completed_seek_id: u64,
}

impl PlaybackSnapshot {
    /// The snapshot of a thread that has nothing to play.
    pub open spec fn idle() -> PlaybackSnapshot {
        PlaybackSnapshot {
            status: PlaybackStatus::Idle,
            position: Duration::empty(),
            error: None,
            completed_seek_id: 0,
        }
    }
}

impl Default for PlaybackSnapshot {
    /// The snapshot of a thread that has nothing to play.
    fn default() -> (snapshot: Self)
        ensures
            snapshot == PlaybackSnapshot::idle(),
    {
        PlaybackSnapshot {
            status: PlaybackStatus::Idle,
            position: Duration::zero(),
            error: None,
            completed_seek_id: 0,
        }
    }
}

/// A copy of a message, if there is one.
pub fn copy_message(message: &Option<String>) -> (copy: Option<String>)
    ensures
        copy == *message,
{
    match message {
        Some(text) => Some(text.clone()),
        None => None,
    }
}

impl Clone for PlaybackSnapshot {
    fn clone(&self) -> (copy: Self)
        ensures
            copy == *self,
    {
        PlaybackSnapshot {
            status: self.status,
            position: self.position,
            error: copy_message(&self.error),
            completed_seek_id: self.completed_seek_id,
        }
    }
}

/// The snapshot that the thread and the rest of the program share.
#[derive(Debug)]
pub struct SharedPlaybackSnapshot(pub PlaybackSnapshot);

impl Default for SharedPlaybackSnapshot {
    fn default() -> (shared: Self)
        ensures
            shared.0 == PlaybackSnapshot::idle(),
    {
        SharedPlaybackSnapshot(PlaybackSnapshot::default())
    }
}

/// The snapshot as [`SharedPlaybackSnapshot::set_idle_position`] leaves it.
pub open spec fn idle_at(snapshot: PlaybackSnapshot, position: Duration) -> PlaybackSnapshot {
    PlaybackSnapshot { status: PlaybackStatus::Idle, position, error: None, ..snapshot }
}

impl SharedPlaybackSnapshot {
    /// The snapshot as it is now.
    pub fn read(&self) -> (snapshot: PlaybackSnapshot)
        ensures
            snapshot == self.0,
    {
        self.0.clone()
    }

    /// Replaces the snapshot by what `update` makes of it.
    pub fn update(&mut self, update: impl FnOnce(PlaybackSnapshot) -> PlaybackSnapshot)
        requires
            call_requires(update, (old(self).0,)),
        ensures
            call_ensures(update, (old(self).0,), final(self).0),
    {
        let current = self.0.clone();
        self.0 = update(current);
    }

    /// Moves the position of a thread that has nothing to play.
    pub fn set_idle_position(&mut self, position: Duration)
        ensures
            final(self).0 == idle_at(old(self).0, position),
    {
        self.0.status = PlaybackStatus::Idle;
        self.0.position = position;
        self.0.error = None;
    }

    /// Notes that the output device failed.
    pub fn output_failed(&mut self, error: &str)
        ensures
            final(self).0.status == PlaybackStatus::Failed,
            final(self).0.error matches Some(message) && message@
                == "The audio output device failed: "@ + error@,
            final(self).0.position == old(self).0.position,
            final(self).0.completed_seek_id == old(self).0.completed_seek_id,
    {
        let mut message = String::new();
        message.append("The audio output device failed: ");
        message.append(error);
        assert(message@ =~= "The audio output device failed: "@ + error@);
        self.0.status = PlaybackStatus::Failed;
        self.0.error = Some(message);
    }
}

/// What the playback thread is asked to do.
#[derive(Debug)]
pub enum PlaybackCommand {
    LoadAndPlay { bytes: Arc<Vec<u8>>, format_hint: Option<String>, offset: Duration },
    Pause,
    Resume,
    Seek { position: Duration, seek_id: u64 },
    Stop,
    Shutdown,
}

/// Whether the thread has a player, and whether that was paused when it was last asked.
#[derive(Clone, Copy, Debug, PartialEq, Eq, Structural)]
pub enum PlaybackSession {
    Absent,
    Running,
    Paused,
}

/// What the thread is to do next. Each step but the last is answered by a
/// [`PlaybackEvent`].
#[derive(Debug)]
pub enum PlaybackAction {
    /// Wait for a command: `Received` or `Disconnected`.
    Wait,
    /// Wait for a command for [`PLAYBACK_POSITION_UPDATE_MILLIS`] at most: `Received`,
    /// `TimedOut` or `Disconnected`.
    WaitBriefly,
    /// Take a command that is already there: `Received` or `NothingLeft`.
    Poll,
    /// Open a player at `offset`: `Started` or `NotStarted`. The player takes the place
    /// of the one before.
    Start { bytes: Arc<Vec<u8>>, format_hint: Option<String>, offset: Duration },
    /// Pause the player: `Paused`.
    Pause,
    /// Let the player go on: `Resumed`.
    Resume,
    /// Move the player: `SeekDone` or `SeekFailed`.
    Seek { position: Duration, seek_id: u64 },
    /// Ask the player how far it is: `Progress`.
    Query,
    /// Stop for good.
    Exit,
}

/// What came of the last [`PlaybackAction`].
#[derive(Debug)]
pub enum PlaybackEvent {
    Received(PlaybackCommand),
    TimedOut,
    Disconnected,
    NothingLeft,
    Started,
    NotStarted(String),
    Paused { position: Duration },
    Resumed,
    SeekDone { position: Duration, seek_id: u64 },
    SeekFailed(String),
    Progress { position: Duration, at_end: bool, paused: bool },
}

/// What the thread does about `command`.
pub open spec fn action_for(command: PlaybackCommand, session: PlaybackSession) -> PlaybackAction {
    match command {
        PlaybackCommand::LoadAndPlay { bytes, format_hint, offset } => PlaybackAction::Start {
            bytes,
            format_hint,
            offset,
        },
        PlaybackCommand::Shutdown => PlaybackAction::Exit,
        PlaybackCommand::Stop => PlaybackAction::Poll,
        _ if session == PlaybackSession::Absent => PlaybackAction::Poll,
        PlaybackCommand::Pause => PlaybackAction::Pause,
        PlaybackCommand::Resume => PlaybackAction::Resume,
        PlaybackCommand::Seek { position, seek_id } => PlaybackAction::Seek { position, seek_id },
    }
}

/// What the thread tells as soon as it has taken `command`: that a file is being opened,
/// or that there is nothing to play any more.
pub open spec fn snapshot_for(
    command: PlaybackCommand,
    snapshot: PlaybackSnapshot,
) -> PlaybackSnapshot {
    match command {
        PlaybackCommand::LoadAndPlay { offset, .. } => PlaybackSnapshot {
            status: PlaybackStatus::Starting,
            position: offset,
            error: None,
            ..snapshot
        },
        PlaybackCommand::Stop => PlaybackSnapshot::idle(),
        _ => snapshot,
    }
}

/// The session once `command` is taken: stopping ends it.
pub open spec fn session_for(
    command: PlaybackCommand,
    session: PlaybackSession,
) -> PlaybackSession {
    match command {
        PlaybackCommand::Stop => PlaybackSession::Absent,
        _ => session,
    }
}

/// Takes a command. A command to the player is dropped where there is none.
pub fn handle_playback_command(
    command: PlaybackCommand,
    session: &mut PlaybackSession,
    snapshot: &mut SharedPlaybackSnapshot,
) -> (action: PlaybackAction)
    ensures
        action == action_for(command, *old(session)),
        *final(session) == session_for(command, *old(session)),
        final(snapshot).0 == snapshot_for(command, old(snapshot).0),
{
    let absent = *session == PlaybackSession::Absent;
    match command {
        PlaybackCommand::LoadAndPlay { bytes, format_hint, offset } => {
            snapshot.0.status = PlaybackStatus::Starting;
            snapshot.0.position = offset;
            snapshot.0.error = None;
            PlaybackAction::Start { bytes, format_hint, offset }
        },
        PlaybackCommand::Pause => if absent {
            PlaybackAction::Poll
        } else {
            PlaybackAction::Pause
        },
        PlaybackCommand::Resume => if absent {
            PlaybackAction::Poll
        } else {
            PlaybackAction::Resume
        },
        PlaybackCommand::Seek { position, seek_id } => if absent {
            PlaybackAction::Poll
        } else {
            PlaybackAction::Seek { position, seek_id }
        },
        PlaybackCommand::Stop => {
            *session = PlaybackSession::Absent;
            *snapshot = SharedPlaybackSnapshot::default();
            PlaybackAction::Poll
        },
        PlaybackCommand::Shutdown => PlaybackAction::Exit,
    }
}

/// How the thread waits for the next command: only while a player runs does it come back
/// to look at the position.
pub open spec fn wait_action(session: PlaybackSession) -> PlaybackAction {
    match session {
        PlaybackSession::Running => PlaybackAction::WaitBriefly,
        _ => PlaybackAction::Wait,
    }
}

/// What the thread does next once `event` has happened.
pub open spec fn next_action(
    event: PlaybackEvent,
    session: PlaybackSession,
    snapshot: PlaybackSnapshot,
) -> PlaybackAction {
    match event {
        PlaybackEvent::Received(command) => action_for(command, session),
        PlaybackEvent::Disconnected => PlaybackAction::Exit,
        PlaybackEvent::NothingLeft => if session == PlaybackSession::Absent || snapshot.status
            == PlaybackStatus::Failed {
            PlaybackAction::Wait
        } else {
            PlaybackAction::Query
        },
        PlaybackEvent::Progress { at_end, paused, .. } => wait_action(
            next_session(event, session, snapshot),
        ),
        _ => PlaybackAction::Poll,
    }
}

/// The session once `event` has happened: a player that could not be opened, one whose
/// device failed and one that is at its end are given up.
pub open spec fn next_session(
    event: PlaybackEvent,
    session: PlaybackSession,
    snapshot: PlaybackSnapshot,
) -> PlaybackSession {
    match event {
        PlaybackEvent::Received(command) => session_for(command, session),
        PlaybackEvent::NothingLeft => if snapshot.status == PlaybackStatus::Failed {
            PlaybackSession::Absent
        } else {
            session
        },
        PlaybackEvent::Started => PlaybackSession::Running,
        PlaybackEvent::NotStarted(_) => PlaybackSession::Absent,
        PlaybackEvent::Progress { at_end, paused, .. } => if session == PlaybackSession::Absent
            || at_end {
            PlaybackSession::Absent
        } else if paused {
            PlaybackSession::Paused
        } else {
            PlaybackSession::Running
        },
        _ => session,
    }
}

/// What the thread tells once `event` has happened, but for the message of a failed seek.
pub open spec fn next_snapshot(
    event: PlaybackEvent,
    session: PlaybackSession,
    snapshot: PlaybackSnapshot,
) -> PlaybackSnapshot {
    match event {
        PlaybackEvent::Received(command) => snapshot_for(command, snapshot),
        PlaybackEvent::Started => PlaybackSnapshot { status: PlaybackStatus::Playing, ..snapshot },
        PlaybackEvent::NotStarted(message) => PlaybackSnapshot {
            status: PlaybackStatus::Failed,
            error: Some(message),
            ..snapshot
        },
        PlaybackEvent::Paused { position } => PlaybackSnapshot {
            status: PlaybackStatus::Paused,
            position,
            ..snapshot
        },
        PlaybackEvent::Resumed => PlaybackSnapshot {
            status: PlaybackStatus::Playing,
            error: None,
            ..snapshot
        },
        PlaybackEvent::SeekDone { position, seek_id } => PlaybackSnapshot {
            position,
            error: None,
            completed_seek_id: seek_id,
            ..snapshot
        },
        PlaybackEvent::Progress { position, at_end, paused } => if session
            == PlaybackSession::Absent {
            snapshot
        } else if at_end {
            PlaybackSnapshot { status: PlaybackStatus::Finished, position, ..snapshot }
        } else if paused {
            snapshot
        } else {
            PlaybackSnapshot { status: PlaybackStatus::Playing, position, ..snapshot }
        },
        _ => snapshot,
    }
}

/// What a failed seek is reported as.
pub open spec fn seek_message(error: Seq<char>) -> Seq<char> {
    "Could not seek in the audio file: "@ + error
}

/// Whether the thread tells `after` once `event` has happened. A failed seek changes nothing
/// but the message.
pub open spec fn tells(
    event: PlaybackEvent,
    session: PlaybackSession,
    before: PlaybackSnapshot,
    after: PlaybackSnapshot,
) -> bool {
    match event {
        PlaybackEvent::SeekFailed(error) => {
            &&& after.status == before.status
            &&& after.position == before.position
            &&& after.completed_seek_id == before.completed_seek_id
            &&& after.error matches Some(message) && message@ == seek_message(error@)
        },
        _ => after == next_snapshot(event, session, before),
    }
}

/// One step of the playback thread: takes note of `event` and says what is to be done
/// next. The thread starts with [`PlaybackAction::Wait`], with no session and with the
/// default snapshot. Where the session is absent after a step, the player is to be
/// dropped.
///
/// Once a command has been carried out, the commands that came meanwhile follow, and
/// only then is the position taken.
pub fn playback_thread(
    event: PlaybackEvent,
    session: &mut PlaybackSession,
    snapshot: &mut SharedPlaybackSnapshot,
) -> (action: PlaybackAction)
    ensures
        action == next_action(event, *old(session), old(snapshot).0),
        *final(session) == next_session(event, *old(session), old(snapshot).0),
        tells(event, *old(session), old(snapshot).0, final(snapshot).0),
{
    match event {
        PlaybackEvent::Received(command) => {
            return handle_playback_command(command, session, snapshot);
        },
        PlaybackEvent::TimedOut => {},
        PlaybackEvent::Disconnected => {
            return PlaybackAction::Exit;
        },
        PlaybackEvent::NothingLeft => {
            if *session == PlaybackSession::Absent {
                return PlaybackAction::Wait;
            }
            if snapshot.0.status == PlaybackStatus::Failed {
                *session = PlaybackSession::Absent;
                return PlaybackAction::Wait;
            }
            return PlaybackAction::Query;
        },
        PlaybackEvent::Started => {
            *session = PlaybackSession::Running;
            snapshot.0.status = PlaybackStatus::Playing;
        },
        PlaybackEvent::NotStarted(message) => {
            *session = PlaybackSession::Absent;
            snapshot.0.status = PlaybackStatus::Failed;
            snapshot.0.error = Some(message);
        },
        PlaybackEvent::Paused { position } => {
            snapshot.0.status = PlaybackStatus::Paused;
            snapshot.0.position = position;
        },
        PlaybackEvent::Resumed => {
            snapshot.0.status = PlaybackStatus::Playing;
            snapshot.0.error = None;
        },
        PlaybackEvent::SeekDone { position, seek_id } => {
            snapshot.0.position = position;
            snapshot.0.error = None;
            snapshot.0.completed_seek_id = seek_id;
        },
        PlaybackEvent::SeekFailed(error) => {
            let mut message = String::new();
            message.append("Could not seek in the audio file: ");
            message.append(error.as_str());
            assert(message@ =~= seek_message(error@));
            snapshot.0.error = Some(message);
        },
        PlaybackEvent::Progress { position, at_end, paused } => {
            if *session == PlaybackSession::Absent {
                return PlaybackAction::Wait;
            }
            if at_end {
                *session = PlaybackSession::Absent;
                snapshot.0.status = PlaybackStatus::Finished;
                snapshot.0.position = position;
                return PlaybackAction::Wait;
            }
            if paused {
                *session = PlaybackSession::Paused;
                return PlaybackAction::Wait;
            }
            *session = PlaybackSession::Running;
            snapshot.0.status = PlaybackStatus::Playing;
            snapshot.0.position = position;
            return PlaybackAction::WaitBriefly;
        },
    }
    PlaybackAction::Poll
}

/// One step of opening a player.
#[derive(Clone, Copy, Debug, PartialEq, Eq, Structural)]
pub enum StartStep {
    Decode,
    OpenOutput,
    Mute,
    Append,
    Seek,
    FadeIn,
}

/// The steps of opening a player, at the beginning or elsewhere.
pub open spec fn start_steps(elsewhere: bool) -> Seq<StartStep> {
    if elsewhere {
        seq![
            StartStep::Decode,
            StartStep::OpenOutput,
            StartStep::Mute,
            StartStep::Append,
            StartStep::Seek,
            StartStep::FadeIn,
        ]
    } else {
        seq![StartStep::Decode, StartStep::OpenOutput, StartStep::Append]
    }
}

/// How a player is opened at `offset`: one that does not start at the beginning is moved
/// before it is heard. A step that fails is the last.
pub fn start_playback_session(offset: Duration) -> (steps: Vec<StartStep>)
    ensures
        steps@ == if offset@ == 0 {
            seq![StartStep::Decode, StartStep::OpenOutput, StartStep::Append]
        } else {
            seq![
                StartStep::Decode,
                StartStep::OpenOutput,
                StartStep::Mute,
                StartStep::Append,
                StartStep::Seek,
                StartStep::FadeIn,
            ]
        },
        steps@ == start_steps(offset@ != 0),
{
    let mut steps: Vec<StartStep> = Vec::new();
    steps.push(StartStep::Decode);
    steps.push(StartStep::OpenOutput);
    if !offset.is_zero() {
        steps.push(StartStep::Mute);
    }
    steps.push(StartStep::Append);
    if !offset.is_zero() {
        steps.push(StartStep::Seek);
        steps.push(StartStep::FadeIn);
        assert(steps@ =~= seq![
            StartStep::Decode,
            StartStep::OpenOutput,
            StartStep::Mute,
            StartStep::Append,
            StartStep::Seek,
            StartStep::FadeIn,
        ]);
    } else {
        assert(steps@ =~= seq![StartStep::Decode, StartStep::OpenOutput, StartStep::Append]);
    }
    steps
}

/// One step of moving a player that is playing or paused.
#[derive(Clone, Copy, Debug, PartialEq, Eq, Structural)]
pub enum SeekStep {
    FadeOut,
    Seek,
    FadeIn,
}

/// The steps of moving a player that is paused, or heard.
pub open spec fn seek_steps(paused: bool) -> Seq<SeekStep> {
    if paused {
        seq![SeekStep::Seek]
    } else {
        seq![SeekStep::FadeOut, SeekStep::Seek, SeekStep::FadeIn]
    }
}

/// How a player is moved: one that is paused at once, one that is heard with its sound
/// faded out before and faded in again behind, whether or not it could be moved.
pub fn seek_with_fade(paused: bool) -> (steps: Vec<SeekStep>)
    ensures
        steps@ == if paused {
            seq![SeekStep::Seek]
        } else {
            seq![SeekStep::FadeOut, SeekStep::Seek, SeekStep::FadeIn]
        },
        steps@ == seek_steps(paused),
{
    let mut steps: Vec<SeekStep> = Vec::new();
    if !paused {
        steps.push(SeekStep::FadeOut);
    }
    steps.push(SeekStep::Seek);
    if !paused {
        steps.push(SeekStep::FadeIn);
    }
    assert(steps@ =~= if paused {
        seq![SeekStep::Seek]
    } else {
        seq![SeekStep::FadeOut, SeekStep::Seek, SeekStep::FadeIn]
    });
    steps
}

/// The number of the last completed seek changes only where a seek is completed and where
/// playback is stopped.
pub proof fn law_completed_seek_is_kept(
    event: PlaybackEvent,
    session: PlaybackSession,
    snapshot: PlaybackSnapshot,
)
    requires
        !(event is SeekDone),
        event != PlaybackEvent::Received(PlaybackCommand::Stop),
    ensures
        next_snapshot(event, session, snapshot).completed_seek_id == snapshot.completed_seek_id,
{
}

/// A thread without a player asks nothing of one: it opens one, waits, takes the next
/// command or stops for good.
pub proof fn law_no_player_no_orders(event: PlaybackEvent, snapshot: PlaybackSnapshot)
    ensures
        ({
            let action = next_action(event, PlaybackSession::Absent, snapshot);
            ||| action is Start
            ||| action is Wait
            ||| action is Poll
            ||| action is Exit
        }),
{
}

/// The thread stops for good when it is told to and when nobody can tell it anything any
/// more, and only then.
pub proof fn law_when_the_thread_ends(
    event: PlaybackEvent,
    session: PlaybackSession,
    snapshot: PlaybackSnapshot,
)
    ensures
        next_action(event, session, snapshot) is Exit <==> (event is Disconnected || event
            == PlaybackEvent::Received(PlaybackCommand::Shutdown)),
{
}

/// The thread comes back by itself to look at the position only while its player runs.
pub proof fn law_position_is_followed_while_running(
    event: PlaybackEvent,
    session: PlaybackSession,
    snapshot: PlaybackSnapshot,
)
    ensures
        next_action(event, session, snapshot) is WaitBriefly ==> next_session(
            event,
            session,
            snapshot,
        ) == PlaybackSession::Running && next_snapshot(event, session, snapshot).status
            == PlaybackStatus::Playing,
        next_action(event, session, snapshot) is Wait ==> next_session(event, session, snapshot)
            != PlaybackSession::Running,
{
}

/// Where the thread is: its session, what it tells, and what it does next.
pub struct ThreadState {
    pub session: PlaybackSession,
    pub snapshot: PlaybackSnapshot,
    pub action: PlaybackAction,
}

/// Whether `event` can come of `action`.
pub open spec fn comes_of(action: PlaybackAction, event: PlaybackEvent) -> bool {
    match action {
        PlaybackAction::Wait => event is Received || event is Disconnected,
        PlaybackAction::WaitBriefly => event is Received || event is TimedOut
            || event is Disconnected,
        PlaybackAction::Poll => event is Received || event is NothingLeft,
        PlaybackAction::Start { .. } => event is Started || event is NotStarted,
        PlaybackAction::Pause => event is Paused,
        PlaybackAction::Resume => event is Resumed,
        PlaybackAction::Seek { position, seek_id } => event is SeekFailed || event
            == (PlaybackEvent::SeekDone { position, seek_id }),
        PlaybackAction::Query => event is Progress,
        PlaybackAction::Exit => false,
    }
}

/// Whether one step of the thread leads from `before` to `after`.
pub open spec fn steps_to(before: ThreadState, event: PlaybackEvent, after: ThreadState) -> bool {
    &&& comes_of(before.action, event)
    &&& after.action == next_action(event, before.session, before.snapshot)
    &&& after.session == next_session(event, before.session, before.snapshot)
    &&& tells(event, before.session, before.snapshot, after.snapshot)
}

/// Whether the thread goes through `states` while `events` happen, and nothing else changes
/// what it tells. It starts without a player, and waits.
pub open spec fn is_run(states: Seq<ThreadState>, events: Seq<PlaybackEvent>) -> bool {
    &&& states.len() == events.len() + 1
    &&& states[0].session == PlaybackSession::Absent
    &&& states[0].action is Wait
    &&& forall|i: int|
        0 <= i < events.len() ==> steps_to(states[i], #[trigger] events[i], states[i + 1])
}

/// The commands that the thread has taken, in order.
pub open spec fn taken(events: Seq<PlaybackEvent>) -> Seq<PlaybackCommand>
    decreases events.len(),
{
    if events.len() == 0 {
        Seq::empty()
    } else {
        match events.last() {
            PlaybackEvent::Received(command) => taken(events.drop_last()).push(command),
            _ => taken(events.drop_last()),
        }
    }
}

/// Whether the events are those of a channel on which these commands are sent: it hands them
/// out in order, each once, and is disconnected only once all have been handed out.
pub open spec fn is_channel(sent: Seq<PlaybackCommand>, events: Seq<PlaybackEvent>) -> bool {
    &&& taken(events).is_prefix_of(sent)
    &&& forall|i: int|
        0 <= i < events.len() && (#[trigger] events[i]) is Disconnected ==> taken(events.take(i))
            == sent
}

/// The commands up to the first that shuts the thread down, and with that.
pub open spec fn until_shutdown(commands: Seq<PlaybackCommand>) -> Seq<PlaybackCommand>
    decreases commands.len(),
{
    if commands.len() == 0 {
        commands
    } else if commands[0] is Shutdown {
        commands.take(1)
    } else {
        commands.take(1) + until_shutdown(commands.skip(1))
    }
}

/// Commands before the first that shuts the thread down, if there is one.
proof fn lemma_until_shutdown(commands: Seq<PlaybackCommand>, count: int)
    requires
        0 <= count <= commands.len(),
        forall|i: int| 0 <= i < count ==> !((#[trigger] commands[i]) is Shutdown),
    ensures
        commands.take(count).is_prefix_of(until_shutdown(commands)),
        count == commands.len() ==> until_shutdown(commands) == commands,
        count < commands.len() ==> commands.take(count + 1).is_prefix_of(until_shutdown(commands)),
        count < commands.len() && commands[count] is Shutdown ==> until_shutdown(commands)
            == commands.take(count + 1),
    decreases commands.len(),
{
    if commands.len() > 0 {
        let rest = commands.skip(1);
        let kept = until_shutdown(commands);
        if count > 0 {
            assert(!(commands[0] is Shutdown));
            assert forall|i: int| 0 <= i < count - 1 implies !((
            #[trigger] rest[i]) is Shutdown) by {
                assert(rest[i] == commands[i + 1]);
            }
            lemma_until_shutdown(rest, count - 1);
            let inner = until_shutdown(rest);
            assert(kept == commands.take(1) + inner);
            assert(commands.take(count) =~= commands.take(1) + rest.take(count - 1));
            assert(commands.take(1) + rest =~= commands);
            assert(rest.take(count - 1) =~= inner.take(count - 1));
            assert(commands.take(count) =~= kept.take(count));
            if count < commands.len() {
                assert(rest[count - 1] == commands[count]);
                assert(commands.take(count + 1) =~= commands.take(1) + rest.take(count));
                assert(rest.take(count) =~= inner.take(count));
                assert(commands.take(count + 1) =~= kept.take(count + 1));
            }
        } else {
            assert(commands.take(0) =~= kept.take(0));
            assert(commands.take(1) =~= kept.take(1));
        }
    } else {
        assert(commands.take(0) =~= until_shutdown(commands).take(0));
    }
}

/// What holds of the thread after a number of events.
proof fn lemma_run(states: Seq<ThreadState>, events: Seq<PlaybackEvent>, count: int)
    requires
        is_run(states, events),
        0 <= count <= events.len(),
    ensures
        ({
            let commands = taken(events.take(count));
            let state = states[count];
            &&& forall|i: int|
                0 <= i < commands.len() - 1 ==> !((#[trigger] commands[i]) is Shutdown)
            &&& commands.len() > 0 && commands.last() is Shutdown ==> state.action is Exit
            &&& state.action is Exit ==> count > 0 && (events[count - 1] is Disconnected || (
            commands.len() > 0 && commands.last() is Shutdown))
            &&& (forall|i: int|
                0 <= i < commands.len() ==> !((#[trigger] commands[i]) is LoadAndPlay)) ==> {
                &&& state.session == PlaybackSession::Absent
                &&& state.action is Wait || state.action is Poll || state.action is Exit
                &&& state.snapshot == if commands.contains(PlaybackCommand::Stop) {
                    PlaybackSnapshot::idle()
                } else {
                    states[0].snapshot
                }
            }
        }),
    decreases count,
{
    let now = events.take(count);
    let commands = taken(now);
    if count == 0 {
        assert(commands =~= Seq::<PlaybackCommand>::empty());
    } else {
        lemma_run(states, events, count - 1);
        assert(now.drop_last() =~= events.take(count - 1));
        let before = taken(events.take(count - 1));
        let event = events[count - 1];
        assert(now.last() == event);
        assert(steps_to(states[count - 1], event, states[count]));
        match event {
            PlaybackEvent::Received(command) => {
                assert(commands == before.push(command));
                assert forall|i: int| 0 <= i < commands.len() - 1 implies !((
                #[trigger] commands[i]) is Shutdown) by {
                    assert(commands[i] == before[i]);
                    if i == before.len() - 1 {
                        assert(before.last() == before[i]);
                    }
                }
                if forall|i: int|
                    0 <= i < commands.len() ==> !((#[trigger] commands[i]) is LoadAndPlay) {
                    assert forall|i: int| 0 <= i < before.len() implies !((
                    #[trigger] before[i]) is LoadAndPlay) by {
                        assert(commands[i] == before[i]);
                    }
                    assert(commands[commands.len() - 1] == command);
                    if command is Stop {
                        assert(commands[commands.len() - 1] == PlaybackCommand::Stop);
                    } else if before.contains(PlaybackCommand::Stop) {
                        let i = choose|i: int|
                            0 <= i < before.len() && before[i] == PlaybackCommand::Stop;
                        assert(commands[i] == PlaybackCommand::Stop);
                    } else if commands.contains(PlaybackCommand::Stop) {
                        let i = choose|i: int|
                            0 <= i < commands.len() && commands[i] == PlaybackCommand::Stop;
                        assert(before[i] == PlaybackCommand::Stop);
                    }
                }
            },
            _ => {
                assert(commands == before);
            },
        }
    }
}

/// The thread takes the commands that are sent to it once each and in their order, up to the
/// first that shuts it down; and when it ends, it has taken all of those.
pub proof fn law_commands_are_taken_in_order(
    states: Seq<ThreadState>,
    events: Seq<PlaybackEvent>,
    sent: Seq<PlaybackCommand>,
)
    requires
        is_run(states, events),
        is_channel(sent, events),
    ensures
        taken(events).is_prefix_of(until_shutdown(sent)),
        states.last().action is Exit ==> taken(events) == until_shutdown(sent),
{
    let count = events.len() as int;
    let commands = taken(events);
    lemma_run(states, events, count);
    assert(events.take(count) =~= events);
    assert(commands =~= sent.take(commands.len() as int));
    assert(states.last() == states[count]);
    if commands.len() > 0 {
        let last = commands.len() - 1;
        assert forall|i: int| 0 <= i < last implies !((#[trigger] sent[i]) is Shutdown) by {
            assert(sent[i] == commands[i]);
        }
        assert(sent[last] == commands.last());
        lemma_until_shutdown(sent, last);
    } else {
        lemma_until_shutdown(sent, 0);
        assert(sent.take(0) =~= commands);
    }
    if states.last().action is Exit && events[count - 1] is Disconnected {
        assert(events.take(count).drop_last() =~= events.take(count - 1));
        assert(events.take(count).last() == events[count - 1]);
        assert(commands == sent);
        if !(commands.len() > 0 && commands.last() is Shutdown) {
            assert forall|i: int| 0 <= i < sent.len() implies !((
            #[trigger] sent[i]) is Shutdown) by {
                assert(commands[i] == sent[i]);
                if i == commands.len() - 1 {
                    assert(commands.last() == commands[i]);
                }
            }
            lemma_until_shutdown(sent, sent.len() as int);
        }
    }
}

/// As long as no file was to be played, the thread has no player, and tells what it told at
/// first; or, once it was stopped, that there is nothing to play.
pub proof fn law_nothing_plays_unasked(states: Seq<ThreadState>, events: Seq<PlaybackEvent>)
    requires
        is_run(states, events),
        forall|i: int|
            0 <= i < taken(events).len() ==> !((#[trigger] taken(events)[i]) is LoadAndPlay),
    ensures
        states.last().session == PlaybackSession::Absent,
        states.last().snapshot == if taken(events).contains(PlaybackCommand::Stop) {
            PlaybackSnapshot::idle()
        } else {
            states[0].snapshot
        },
{
    let count = events.len() as int;
    lemma_run(states, events, count);
    assert(events.take(count) =~= events);
    assert(states.last() == states[count]);
}

/// A command that the thread takes is carried out at once: what it tells, what it has and
/// what it does next are what that command asks for.
pub proof fn law_taken_commands_are_carried_out(
    states: Seq<ThreadState>,
    events: Seq<PlaybackEvent>,
    at: int,
    command: PlaybackCommand,
)
    requires
        is_run(states, events),
        0 <= at < events.len(),
        events[at] == PlaybackEvent::Received(command),
    ensures
        states[at + 1].action == action_for(command, states[at].session),
        states[at + 1].session == session_for(command, states[at].session),
        states[at + 1].snapshot == snapshot_for(command, states[at].snapshot),
{
    assert(steps_to(states[at], events[at], states[at + 1]));
}

/// Where the thread has a player, what follows a look at it depends on what the player says
/// alone, and not on whether it was paused before: one that plays is told to play, at the
/// position it gives, and is looked at again soon; one that is paused changes nothing that
/// is told, and is left alone; and one at its end is told to have finished there, and is
/// given up.
pub proof fn law_the_player_has_the_last_word(
    session: PlaybackSession,
    before: PlaybackSnapshot,
    after: PlaybackSnapshot,
    position: Duration,
    at_end: bool,
    paused: bool,
)
    requires
        session == PlaybackSession::Running || session == PlaybackSession::Paused,
        tells(PlaybackEvent::Progress { position, at_end, paused }, session, before, after),
    ensures
        ({
            let event = PlaybackEvent::Progress { position, at_end, paused };
            let next = next_session(event, session, before);
            let action = next_action(event, session, before);
            &&& !at_end && !paused ==> {
                &&& after.status == PlaybackStatus::Playing
                &&& after.position == position
                &&& next == PlaybackSession::Running
                &&& action == PlaybackAction::WaitBriefly
            }
            &&& !at_end && paused ==> {
                &&& after == before
                &&& next == PlaybackSession::Paused
                &&& action == PlaybackAction::Wait
            }
            &&& at_end ==> {
                &&& after.status == PlaybackStatus::Finished
                &&& after.position == position
                &&& next == PlaybackSession::Absent
                &&& action == PlaybackAction::Wait
            }
            &&& after.error == before.error
            &&& after.completed_seek_id == before.completed_seek_id
        }),
{
}

/// What the player says of itself is all that a look at it depends on: whether it was
/// paused before makes no difference.
pub proof fn law_progress_forgets_the_session(
    snapshot: PlaybackSnapshot,
    position: Duration,
    at_end: bool,
    paused: bool,
)
    ensures
        ({
            let event = PlaybackEvent::Progress { position, at_end, paused };
            let running = PlaybackSession::Running;
            let resting = PlaybackSession::Paused;
            &&& next_session(event, running, snapshot) == next_session(event, resting, snapshot)
            &&& next_snapshot(event, running, snapshot) == next_snapshot(event, resting, snapshot)
            &&& next_action(event, running, snapshot) == next_action(event, resting, snapshot)
        }),
{
}

/// Without a player there is nothing to look at: the thread waits, and tells what it told.
pub proof fn law_no_player_no_progress(
    before: PlaybackSnapshot,
    after: PlaybackSnapshot,
    position: Duration,
    at_end: bool,
    paused: bool,
)
    requires
        tells(
            PlaybackEvent::Progress { position, at_end, paused },
            PlaybackSession::Absent,
            before,
            after,
        ),
    ensures
        ({
            let event = PlaybackEvent::Progress { position, at_end, paused };
            let absent = PlaybackSession::Absent;
            &&& after == before
            &&& next_session(event, absent, before) == absent
            &&& next_action(event, absent, before) == PlaybackAction::Wait
        }),
{
}

/// A file that is to be played is told to be starting at its offset, without a message,
/// and is opened there, whatever plays meanwhile.
pub proof fn law_a_file_starts_at_its_offset(
    session: PlaybackSession,
    before: PlaybackSnapshot,
    after: PlaybackSnapshot,
    bytes: Arc<Vec<u8>>,
    format_hint: Option<String>,
    offset: Duration,
)
    requires
        tells(
            PlaybackEvent::Received(PlaybackCommand::LoadAndPlay { bytes, format_hint, offset }),
            session,
            before,
            after,
        ),
    ensures
        ({
            let event = PlaybackEvent::Received(
                PlaybackCommand::LoadAndPlay { bytes, format_hint, offset },
            );
            &&& after.status == PlaybackStatus::Starting
            &&& after.position == offset
            &&& after.error is None
            &&& after.completed_seek_id == before.completed_seek_id
            &&& next_session(event, session, before) == session
            &&& next_action(event, session, before) == (PlaybackAction::Start {
                bytes,
                format_hint,
                offset,
            })
        }),
{
}

/// Stopping drops the player, and leaves nothing to tell: no position, no message and no
/// completed seek.
pub proof fn law_stopping_leaves_nothing(
    session: PlaybackSession,
    before: PlaybackSnapshot,
    after: PlaybackSnapshot,
)
    requires
        tells(PlaybackEvent::Received(PlaybackCommand::Stop), session, before, after),
    ensures
        after.status == PlaybackStatus::Idle,
        after.position@ == 0,
        after.error is None,
        after.completed_seek_id == 0,
        next_session(PlaybackEvent::Received(PlaybackCommand::Stop), session, before)
            == PlaybackSession::Absent,
        next_action(PlaybackEvent::Received(PlaybackCommand::Stop), session, before)
            == PlaybackAction::Poll,
{
    lemma_empty_span();
}

/// A command to the player changes nothing by being taken: it is handed on where there is
/// a player, running or paused, and dropped where there is none. Being told to shut down
/// changes nothing either.
pub proof fn law_commands_reach_the_player(
    command: PlaybackCommand,
    session: PlaybackSession,
    before: PlaybackSnapshot,
    after: PlaybackSnapshot,
)
    requires
        !(command is LoadAndPlay),
        !(command is Stop),
        tells(PlaybackEvent::Received(command), session, before, after),
    ensures
        after == before,
        next_session(PlaybackEvent::Received(command), session, before) == session,
        ({
            let action = next_action(PlaybackEvent::Received(command), session, before);
            let has_player = session == PlaybackSession::Running || session
                == PlaybackSession::Paused;
            &&& command is Shutdown ==> action == PlaybackAction::Exit
            &&& command is Pause && has_player ==> action == PlaybackAction::Pause
            &&& command is Resume && has_player ==> action == PlaybackAction::Resume
            &&& command matches PlaybackCommand::Seek { position, seek_id } ==> has_player
                ==> action == (PlaybackAction::Seek { position, seek_id })
            &&& !(command is Shutdown) && !has_player ==> action == PlaybackAction::Poll
        }),
{
}

/// A player that was opened runs, and is told to play from where it was to start; one that
/// could not be opened leaves its message behind and nothing to play.
pub proof fn law_opening_succeeds_or_fails(
    session: PlaybackSession,
    before: PlaybackSnapshot,
    after: PlaybackSnapshot,
    failed: PlaybackSnapshot,
    message: String,
)
    requires
        tells(PlaybackEvent::Started, session, before, after),
        tells(PlaybackEvent::NotStarted(message), session, before, failed),
    ensures
        after.status == PlaybackStatus::Playing,
        after.position == before.position,
        after.error == before.error,
        after.completed_seek_id == before.completed_seek_id,
        next_session(PlaybackEvent::Started, session, before) == PlaybackSession::Running,
        next_action(PlaybackEvent::Started, session, before) == PlaybackAction::Poll,
        failed.status == PlaybackStatus::Failed,
        failed.position == before.position,
        failed.error == Some(message),
        failed.completed_seek_id == before.completed_seek_id,
        next_session(PlaybackEvent::NotStarted(message), session, before)
            == PlaybackSession::Absent,
        next_action(PlaybackEvent::NotStarted(message), session, before) == PlaybackAction::Poll,
{
}

/// A player that was paused is told to be paused where it stands, and one that goes on is
/// told to play, and no longer what had gone wrong.
pub proof fn law_pausing_and_going_on(
    session: PlaybackSession,
    before: PlaybackSnapshot,
    held: PlaybackSnapshot,
    going: PlaybackSnapshot,
    position: Duration,
)
    requires
        tells(PlaybackEvent::Paused { position }, session, before, held),
        tells(PlaybackEvent::Resumed, session, before, going),
    ensures
        held.status == PlaybackStatus::Paused,
        held.position == position,
        held.error == before.error,
        held.completed_seek_id == before.completed_seek_id,
        next_session(PlaybackEvent::Paused { position }, session, before) == session,
        next_action(PlaybackEvent::Paused { position }, session, before) == PlaybackAction::Poll,
        going.status == PlaybackStatus::Playing,
        going.position == before.position,
        going.error is None,
        going.completed_seek_id == before.completed_seek_id,
        next_session(PlaybackEvent::Resumed, session, before) == session,
        next_action(PlaybackEvent::Resumed, session, before) == PlaybackAction::Poll,
{
}

/// A seek that succeeded is told by its number, at the position it was to reach, and takes
/// an earlier message back; one that failed is told by its message alone. Whether playback
/// runs is not touched by either.
pub proof fn law_seeks_are_reported(
    session: PlaybackSession,
    before: PlaybackSnapshot,
    done: PlaybackSnapshot,
    failed: PlaybackSnapshot,
    position: Duration,
    seek_id: u64,
    error: String,
)
    requires
        tells(PlaybackEvent::SeekDone { position, seek_id }, session, before, done),
        tells(PlaybackEvent::SeekFailed(error), session, before, failed),
    ensures
        done.status == before.status,
        done.position == position,
        done.error is None,
        done.completed_seek_id == seek_id,
        next_session(PlaybackEvent::SeekDone { position, seek_id }, session, before) == session,
        next_action(PlaybackEvent::SeekDone { position, seek_id }, session, before)
            == PlaybackAction::Poll,
        failed.status == before.status,
        failed.position == before.position,
        failed.error matches Some(message) && message@ == "Could not seek in the audio file: "@
            + error@,
        failed.completed_seek_id == before.completed_seek_id,
        next_session(PlaybackEvent::SeekFailed(error), session, before) == session,
        next_action(PlaybackEvent::SeekFailed(error), session, before) == PlaybackAction::Poll,
{
}

/// Once no command is left, a player is looked at, unless its device failed: then it is
/// given up. A thread without one waits. Nothing new is told by this, nor by the time
/// being up or by the commands having come to an end.
pub proof fn law_idle_moments_tell_nothing(
    event: PlaybackEvent,
    session: PlaybackSession,
    before: PlaybackSnapshot,
    after: PlaybackSnapshot,
)
    requires
        event is NothingLeft || event is TimedOut || event is Disconnected,
        tells(event, session, before, after),
    ensures
        after == before,
        event is TimedOut ==> {
            &&& next_session(event, session, before) == session
            &&& next_action(event, session, before) == PlaybackAction::Poll
        },
        event is Disconnected ==> {
            &&& next_session(event, session, before) == session
            &&& next_action(event, session, before) == PlaybackAction::Exit
        },
        event is NothingLeft && session == PlaybackSession::Absent ==> {
            &&& next_session(event, session, before) == PlaybackSession::Absent
            &&& next_action(event, session, before) == PlaybackAction::Wait
        },
        event is NothingLeft && before.status == PlaybackStatus::Failed ==> {
            &&& next_session(event, session, before) == PlaybackSession::Absent
            &&& next_action(event, session, before) == PlaybackAction::Wait
        },
        event is NothingLeft && session != PlaybackSession::Absent && before.status
            != PlaybackStatus::Failed ==> {
            &&& next_session(event, session, before) == session
            &&& next_action(event, session, before) == PlaybackAction::Query
        },
{
}

/// A player that goes on after a pause is followed again: once it was let go and no command
/// is left, the thread tells that it plays, and the position it has reached.
pub proof fn law_going_on_is_followed(
    states: Seq<ThreadState>,
    events: Seq<PlaybackEvent>,
    at: int,
    position: Duration,
)
    requires
        is_run(states, events),
        0 <= at,
        at + 3 < events.len(),
        states[at].session == PlaybackSession::Running || states[at].session
            == PlaybackSession::Paused,
        events[at] == PlaybackEvent::Received(PlaybackCommand::Resume),
        events[at + 2] is NothingLeft,
        events[at + 3] == (PlaybackEvent::Progress { position, at_end: false, paused: false }),
    ensures
        states[at + 1].action == PlaybackAction::Resume,
        states[at + 2].snapshot.status == PlaybackStatus::Playing,
        states[at + 2].snapshot.error is None,
        states[at + 3].action == PlaybackAction::Query,
        states[at + 4].snapshot.status == PlaybackStatus::Playing,
        states[at + 4].snapshot.position == position,
        states[at + 4].session == PlaybackSession::Running,
        states[at + 4].action == PlaybackAction::WaitBriefly,
{
    assert(steps_to(states[at], events[at], states[at + 1]));
    assert(steps_to(states[at + 1], events[at + 1], states[at + 2]));
    assert(steps_to(states[at + 2], events[at + 2], states[at + 3]));
    assert(steps_to(states[at + 3], events[at + 3], states[at + 4]));
}

/// Moving the position of a thread that has nothing to play takes an earlier failure and
/// its message back, and keeps the number of the last completed seek.
pub proof fn law_an_idle_position_is_told(snapshot: PlaybackSnapshot, position: Duration)
    ensures
        idle_at(snapshot, position).status == PlaybackStatus::Idle,
        idle_at(snapshot, position).position == position,
        idle_at(snapshot, position).error is None,
        idle_at(snapshot, position).completed_seek_id == snapshot.completed_seek_id,
        PlaybackSnapshot::idle().status == PlaybackStatus::Idle,
        PlaybackSnapshot::idle().position@ == 0,
        PlaybackSnapshot::idle().error is None,
        PlaybackSnapshot::idle().completed_seek_id == 0,
{
    lemma_empty_span();
}

/// While a file plays, its position is taken 125 times a second.
pub proof fn law_position_is_taken_often()
    ensures
        125 * PLAYBACK_POSITION_UPDATE_MILLIS == 1_000,
{
}

/// A player is never heard at a place that was not asked for: one that is to start elsewhere
/// is muted before it has anything to play, moved after, and heard only then. One that starts
/// at the beginning is not moved. The file is decoded before an output is opened, and handed
/// to the player once.
pub proof fn law_a_player_is_heard_in_place(elsewhere: bool, at: int)
    requires
        0 <= at < start_steps(elsewhere).len(),
    ensures
        ({
            let steps = start_steps(elsewhere);
            &&& steps[0] == StartStep::Decode
            &&& steps[1] == StartStep::OpenOutput
            &&& steps[at] == StartStep::Append ==> {
                &&& elsewhere ==> at > 0 && steps[at - 1] == StartStep::Mute
                &&& elsewhere ==> at + 2 < steps.len() && steps[at + 1] == StartStep::Seek
                    && steps[at + 2] == StartStep::FadeIn
                &&& !elsewhere ==> at + 1 == steps.len()
            }
            &&& !elsewhere ==> steps[at] != StartStep::Seek && steps[at] != StartStep::Mute
                && steps[at] != StartStep::FadeIn
            &&& steps.contains(StartStep::Append)
            &&& steps.no_duplicates()
        }),
{
    let steps = start_steps(elsewhere);
    if elsewhere {
        assert(steps[3] == StartStep::Append);
    } else {
        assert(steps[2] == StartStep::Append);
    }
}

/// A player that is heard is moved in silence: faded out before, and in again behind. One that
/// is paused is only moved.
pub proof fn law_a_player_is_moved_in_silence(paused: bool)
    ensures
        seek_steps(paused).contains(SeekStep::Seek),
        paused ==> seek_steps(paused).len() == 1,
        !paused ==> seek_steps(paused).len() == 3 && seek_steps(paused)[0] == SeekStep::FadeOut
            && seek_steps(paused)[1] == SeekStep::Seek && seek_steps(paused)[2]
            == SeekStep::FadeIn,
{
    if paused {
        assert(seek_steps(paused)[0] == SeekStep::Seek);
    } else {
        assert(seek_steps(paused)[1] == SeekStep::Seek);
    }
}

} // verus!
