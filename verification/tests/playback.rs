//! The playback thread and the side of it that the view sees.

use std::sync::Arc;

use audio_viewer::duration::Duration;
use audio_viewer::playback::{
    playback_thread, seek_with_fade, start_playback_session, PlaybackAction, PlaybackCommand,
    PlaybackEvent, PlaybackSession, PlaybackSnapshot, PlaybackStatus, SeekStep,
    SharedPlaybackSnapshot, StartStep,
};
use audio_viewer::transport::PlaybackState;

/// A playback thread with its player left out.
struct Thread {
    session: PlaybackSession,
    snapshot: SharedPlaybackSnapshot,
}

impl Thread {
    fn new() -> Self {
        Thread { session: PlaybackSession::Absent, snapshot: SharedPlaybackSnapshot::default() }
    }

    fn step(&mut self, event: PlaybackEvent) -> PlaybackAction {
        playback_thread(event, &mut self.session, &mut self.snapshot)
    }

    fn take(&mut self, command: PlaybackCommand) -> PlaybackAction {
        self.step(PlaybackEvent::Received(command))
    }

    fn status(&self) -> PlaybackStatus {
        self.snapshot.read().status
    }

    fn playing(offset: Duration) -> Self {
        let mut thread = Thread::new();
        thread.take(load(offset));
        thread.step(PlaybackEvent::Started);
        thread
    }
}

fn load(offset: Duration) -> PlaybackCommand {
    PlaybackCommand::LoadAndPlay {
        bytes: Arc::new(vec![1, 2, 3]),
        format_hint: Some("wav".to_string()),
        offset,
    }
}

fn secs(seconds: u64) -> Duration {
    Duration::from_secs(seconds)
}

#[test]
fn snapshots_are_read_and_updated() {
    let mut shared = SharedPlaybackSnapshot::default();
    let first = shared.read();
    assert_eq!(first.status, PlaybackStatus::Idle);
    assert_eq!(first.position, Duration::zero());
    assert_eq!(first.error, None);
    assert_eq!(first.completed_seek_id, 0);
    shared.update(|snapshot| PlaybackSnapshot {
        status: PlaybackStatus::Playing,
        position: secs(3),
        error: Some("x".to_string()),
        ..snapshot
    });
    assert_eq!(shared.read().position, secs(3));
    shared.set_idle_position(secs(4));
    let idle = shared.read();
    assert_eq!(idle.status, PlaybackStatus::Idle);
    assert_eq!(idle.position, secs(4));
    assert_eq!(idle.error, None);
    shared.output_failed("gone");
    let failed = shared.read();
    assert_eq!(failed.status, PlaybackStatus::Failed);
    assert_eq!(failed.error.as_deref(), Some("The audio output device failed: gone"));
    assert_eq!(failed.position, secs(4));
}

#[test]
fn the_thread_opens_plays_and_finishes_a_file() {
    let mut thread = Thread::new();
    let action = thread.take(load(secs(2)));
    assert!(matches!(
        action,
        PlaybackAction::Start { ref bytes, format_hint: Some(ref hint), offset }
            if bytes.len() == 3 && hint == "wav" && offset == secs(2)
    ));
    assert_eq!(thread.status(), PlaybackStatus::Starting);
    assert_eq!(thread.session, PlaybackSession::Absent);
    assert!(matches!(thread.step(PlaybackEvent::Started), PlaybackAction::Poll));
    assert_eq!(thread.status(), PlaybackStatus::Playing);
    assert_eq!(thread.session, PlaybackSession::Running);
    assert!(matches!(thread.step(PlaybackEvent::NothingLeft), PlaybackAction::Query));
    let action = thread.step(PlaybackEvent::Progress {
        position: secs(3),
        at_end: false,
        paused: false,
    });
    assert!(matches!(action, PlaybackAction::WaitBriefly));
    assert_eq!(thread.snapshot.read().position, secs(3));
    assert!(matches!(thread.step(PlaybackEvent::TimedOut), PlaybackAction::Poll));
    let action = thread.step(PlaybackEvent::Progress {
        position: secs(4),
        at_end: true,
        paused: false,
    });
    assert!(matches!(action, PlaybackAction::Wait));
    assert_eq!(thread.status(), PlaybackStatus::Finished);
    assert_eq!(thread.snapshot.read().position, secs(4));
    assert_eq!(thread.session, PlaybackSession::Absent);
}

#[test]
fn a_file_that_does_not_open_fails() {
    let mut thread = Thread::playing(Duration::zero());
    thread.take(load(Duration::zero()));
    assert_eq!(thread.session, PlaybackSession::Running);
    thread.step(PlaybackEvent::NotStarted("no device".to_string()));
    assert_eq!(thread.status(), PlaybackStatus::Failed);
    assert_eq!(thread.snapshot.read().error.as_deref(), Some("no device"));
    assert_eq!(thread.session, PlaybackSession::Absent);
    assert!(matches!(thread.step(PlaybackEvent::NothingLeft), PlaybackAction::Wait));
}

#[test]
fn a_player_is_paused_resumed_and_moved() {
    let mut thread = Thread::playing(Duration::zero());
    assert!(matches!(thread.take(PlaybackCommand::Pause), PlaybackAction::Pause));
    assert!(matches!(
        thread.step(PlaybackEvent::Paused { position: secs(1) }),
        PlaybackAction::Poll
    ));
    assert_eq!(thread.status(), PlaybackStatus::Paused);
    assert_eq!(thread.snapshot.read().position, secs(1));
    assert!(matches!(
        thread.step(PlaybackEvent::Progress { position: secs(9), at_end: false, paused: true }),
        PlaybackAction::Wait
    ));
    assert_eq!(thread.session, PlaybackSession::Paused);
    assert_eq!(thread.snapshot.read().position, secs(1));
    let seek = PlaybackCommand::Seek { position: secs(7), seek_id: 3 };
    assert!(matches!(
        thread.take(seek),
        PlaybackAction::Seek { position, seek_id: 3 } if position == secs(7)
    ));
    thread.step(PlaybackEvent::SeekFailed("bad".to_string()));
    let failed = thread.snapshot.read();
    assert_eq!(failed.error.as_deref(), Some("Could not seek in the audio file: bad"));
    assert_eq!(failed.completed_seek_id, 0);
    assert_eq!(failed.position, secs(1));
    assert_eq!(failed.status, PlaybackStatus::Paused);
    thread.step(PlaybackEvent::SeekDone { position: secs(7), seek_id: 3 });
    let moved = thread.snapshot.read();
    assert_eq!(moved.error, None);
    assert_eq!(moved.completed_seek_id, 3);
    assert_eq!(moved.position, secs(7));
    assert!(matches!(thread.take(PlaybackCommand::Resume), PlaybackAction::Resume));
    thread.step(PlaybackEvent::Resumed);
    assert_eq!(thread.status(), PlaybackStatus::Playing);
}

#[test]
fn without_a_player_orders_to_it_are_dropped() {
    let mut thread = Thread::new();
    assert!(matches!(thread.take(PlaybackCommand::Pause), PlaybackAction::Poll));
    assert!(matches!(thread.take(PlaybackCommand::Resume), PlaybackAction::Poll));
    let seek = PlaybackCommand::Seek { position: secs(1), seek_id: 1 };
    assert!(matches!(thread.take(seek), PlaybackAction::Poll));
    assert_eq!(thread.status(), PlaybackStatus::Idle);
    assert_eq!(thread.snapshot.read().completed_seek_id, 0);
    let progress = PlaybackEvent::Progress { position: secs(1), at_end: true, paused: false };
    assert!(matches!(thread.step(progress), PlaybackAction::Wait));
    assert_eq!(thread.status(), PlaybackStatus::Idle);
}

#[test]
fn a_failed_device_ends_the_session() {
    let mut thread = Thread::playing(Duration::zero());
    thread.snapshot.output_failed("unplugged");
    assert!(matches!(thread.step(PlaybackEvent::NothingLeft), PlaybackAction::Wait));
    assert_eq!(thread.session, PlaybackSession::Absent);
    assert_eq!(thread.status(), PlaybackStatus::Failed);
}

#[test]
fn the_thread_stops_and_ends() {
    let mut thread = Thread::playing(secs(3));
    thread.step(PlaybackEvent::SeekDone { position: secs(1), seek_id: 8 });
    assert!(matches!(thread.take(PlaybackCommand::Stop), PlaybackAction::Poll));
    assert_eq!(thread.session, PlaybackSession::Absent);
    let stopped = thread.snapshot.read();
    assert_eq!(stopped.status, PlaybackStatus::Idle);
    assert_eq!(stopped.position, Duration::zero());
    assert_eq!(stopped.completed_seek_id, 0);
    assert!(matches!(thread.take(PlaybackCommand::Shutdown), PlaybackAction::Exit));
    assert!(matches!(thread.step(PlaybackEvent::Disconnected), PlaybackAction::Exit));
}

#[test]
fn what_is_heard_is_faded_around_a_move() {
    assert_eq!(seek_with_fade(true), vec![SeekStep::Seek]);
    assert_eq!(
        seek_with_fade(false),
        vec![SeekStep::FadeOut, SeekStep::Seek, SeekStep::FadeIn]
    );
    assert_eq!(
        start_playback_session(Duration::zero()),
        vec![StartStep::Decode, StartStep::OpenOutput, StartStep::Append]
    );
    assert_eq!(
        start_playback_session(Duration::from_nanos(1)),
        vec![
            StartStep::Decode,
            StartStep::OpenOutput,
            StartStep::Mute,
            StartStep::Append,
            StartStep::Seek,
            StartStep::FadeIn,
        ]
    );
}

fn connected(status: PlaybackStatus, position: Duration) -> PlaybackState {
    PlaybackState { connected: true, status, position, ..PlaybackState::default() }
}

fn told(status: PlaybackStatus, position: Duration, completed_seek_id: u64) -> PlaybackSnapshot {
    PlaybackSnapshot { status, position, error: None, completed_seek_id }
}

#[test]
fn playing_connects_and_loads() {
    let mut state = PlaybackState::default();
    assert!(state.needs_thread());
    assert!(state.play_command(Arc::new(vec![]), None).is_none());
    state.connect(Ok(()));
    assert!(state.connected);
    assert!(!state.needs_thread());
    let command = state.play_command(Arc::new(vec![5]), Some("mp3".to_string()));
    assert!(matches!(
        command,
        Some(PlaybackCommand::LoadAndPlay { ref bytes, format_hint: Some(ref hint), offset })
            if **bytes == vec![5] && hint == "mp3" && offset.is_zero()
    ));
    state.play(Ok(()));
    assert_eq!(state.status, PlaybackStatus::Starting);
    assert!(state.is_playing());
    assert!(state.play_command(Arc::new(vec![]), None).is_none());
    state.play(Err("unused".to_string()));
    assert_eq!(state.status, PlaybackStatus::Starting);
}

#[test]
fn a_thread_that_does_not_start_is_a_failure() {
    let mut state = PlaybackState::default();
    state.status = PlaybackStatus::Finished;
    state.position = secs(9);
    state.connect(Err("no thread".to_string()));
    assert!(!state.connected);
    assert_eq!(state.status, PlaybackStatus::Failed);
    assert_eq!(state.position(), Duration::zero());
    assert_eq!(state.error().as_deref(), Some("no thread"));
    state.play(Ok(()));
    assert_eq!(state.status, PlaybackStatus::Failed);
}

#[test]
fn a_finished_file_starts_over() {
    let mut state = connected(PlaybackStatus::Finished, secs(9));
    assert!(state.is_finished());
    assert!(matches!(
        state.play_command(Arc::new(vec![]), None),
        Some(PlaybackCommand::LoadAndPlay { offset, .. }) if offset.is_zero()
    ));
    state.play(Ok(()));
    assert_eq!(state.position(), Duration::zero());
    let mut state = connected(PlaybackStatus::Idle, secs(9));
    assert!(matches!(
        state.play_command(Arc::new(vec![]), None),
        Some(PlaybackCommand::LoadAndPlay { offset, .. }) if offset == secs(9)
    ));
    state.play(Err("stopped".to_string()));
    assert_eq!(state.status, PlaybackStatus::Failed);
    assert_eq!(state.position(), secs(9));
}

#[test]
fn a_paused_file_goes_on() {
    let mut state = connected(PlaybackStatus::Playing, secs(2));
    assert!(matches!(state.pause_command(), Some(PlaybackCommand::Pause)));
    state.pause(Ok(()));
    assert!(state.is_paused());
    assert!(matches!(
        state.play_command(Arc::new(vec![]), None),
        Some(PlaybackCommand::Resume)
    ));
    state.error = Some("old".to_string());
    state.play(Ok(()));
    assert_eq!(state.status, PlaybackStatus::Playing);
    assert_eq!(state.error(), None);
    state.pause(Err("lost".to_string()));
    assert_eq!(state.status, PlaybackStatus::Failed);
    assert_eq!(state.error().as_deref(), Some("lost"));
    let mut alone = PlaybackState::default();
    assert!(alone.pause_command().is_none());
    alone.pause(Ok(()));
    assert_eq!(alone.status, PlaybackStatus::Idle);
}

#[test]
fn a_seek_hides_older_news() {
    let mut state = connected(PlaybackStatus::Playing, secs(2));
    assert!(matches!(
        state.seek_command(secs(8)),
        Some(PlaybackCommand::Seek { position, seek_id: 1 }) if position == secs(8)
    ));
    assert_eq!(state.seek_to(secs(8), Ok(())), None);
    assert_eq!(state.pending_seek_id, Some(1));
    state.synchronize(told(PlaybackStatus::Playing, secs(3), 0));
    assert_eq!(state.position(), secs(8));
    state.synchronize(told(PlaybackStatus::Playing, secs(8), 1));
    assert_eq!(state.position(), secs(8));
    assert_eq!(state.pending_seek_id, None);
    state.synchronize(told(PlaybackStatus::Playing, secs(9), 1));
    assert_eq!(state.position(), secs(9));
    state.seek_to(secs(1), Ok(()));
    state.synchronize(told(PlaybackStatus::Failed, secs(4), 1));
    assert_eq!(state.status, PlaybackStatus::Failed);
    assert_eq!(state.pending_seek_id, None);
}

#[test]
fn a_seek_that_is_not_sent_is_not_waited_for() {
    let mut state = connected(PlaybackStatus::Paused, secs(2));
    state.seek_to(secs(5), Err("lost".to_string()));
    assert_eq!(state.pending_seek_id, None);
    assert_eq!(state.status, PlaybackStatus::Failed);
    assert_eq!(state.next_seek_id, 1);
    assert_eq!(state.position(), secs(5));
    assert!(state.seek_command(secs(1)).is_none());
    assert_eq!(state.seek_to(secs(6), Ok(())), None);
    assert_eq!(state.status, PlaybackStatus::Failed);
    assert_eq!(state.position(), secs(6));
}

#[test]
fn seeks_are_never_numbered_zero() {
    let mut state = connected(PlaybackStatus::Playing, secs(2));
    state.next_seek_id = u64::MAX;
    assert!(matches!(
        state.seek_command(secs(1)),
        Some(PlaybackCommand::Seek { seek_id: 1, .. })
    ));
    state.seek_to(secs(1), Ok(()));
    assert_eq!(state.next_seek_id, 1);
}

#[test]
fn a_seek_while_nothing_plays_moves_the_start() {
    let mut state = connected(PlaybackStatus::Finished, secs(9));
    assert!(state.seek_command(secs(4)).is_none());
    assert_eq!(state.seek_to(secs(4), Ok(())), Some(secs(4)));
    assert_eq!(state.status, PlaybackStatus::Idle);
    assert_eq!(state.position(), secs(4));
    let mut alone = PlaybackState::default();
    assert_eq!(alone.seek_to(secs(4), Ok(())), None);
    assert_eq!(alone.position(), secs(4));
}

#[test]
fn stopping_returns_to_the_beginning() {
    let mut state = connected(PlaybackStatus::Playing, secs(9));
    state.seek_to(secs(3), Ok(()));
    assert!(matches!(state.stop_command(), Some(PlaybackCommand::Stop)));
    state.stop(Ok(()));
    assert_eq!(state.status, PlaybackStatus::Idle);
    assert_eq!(state.position(), Duration::zero());
    assert_eq!(state.pending_seek_id, None);
    assert!(state.connected);
    let mut lost = connected(PlaybackStatus::Playing, secs(9));
    lost.stop(Err("lost".to_string()));
    assert!(!lost.connected);
    assert_eq!(lost.status, PlaybackStatus::Failed);
    assert_eq!(lost.position(), secs(9));
    let mut alone = PlaybackState::default();
    alone.position = secs(2);
    assert!(alone.stop_command().is_none());
    alone.stop(Err("unused".to_string()));
    assert_eq!(alone.position(), Duration::zero());
    assert_eq!(alone.error(), None);
}

#[test]
fn without_a_thread_there_is_no_news() {
    let mut state = PlaybackState::default();
    state.synchronize(told(PlaybackStatus::Playing, secs(4), 0));
    assert_eq!(state.status, PlaybackStatus::Idle);
    assert!(!state.send(Ok(())));
    assert!(!state.send(Err("unused".to_string())));
    assert_eq!(state.error(), None);
}

#[test]
fn the_view_and_the_thread_agree() {
    let mut state = PlaybackState::default();
    let mut thread = Thread::new();
    state.connect(Ok(()));
    let command = state.play_command(Arc::new(vec![1]), None);
    state.play(Ok(()));
    if let Some(command) = command {
        thread.take(command);
    }
    thread.step(PlaybackEvent::Started);
    state.synchronize(thread.snapshot.read());
    assert_eq!(state.status, PlaybackStatus::Playing);
    let command = state.seek_command(secs(6));
    state.seek_to(secs(6), Ok(()));
    state.synchronize(thread.snapshot.read());
    assert_eq!(state.position(), secs(6));
    if let Some(PlaybackCommand::Seek { position, seek_id }) = command {
        thread.step(PlaybackEvent::SeekDone { position, seek_id });
    }
    state.synchronize(thread.snapshot.read());
    assert_eq!(state.position(), secs(6));
    assert_eq!(state.pending_seek_id, None);
}

#[test]
fn the_same_news_again_is_no_news() {
    let mut state = connected(PlaybackStatus::Playing, secs(2));
    state.synchronize(told(PlaybackStatus::Paused, secs(3), 0));
    state.synchronize(told(PlaybackStatus::Paused, secs(3), 0));
    assert_eq!(state.status, PlaybackStatus::Paused);
    assert_eq!(state.position(), secs(3));
}

/// Runs a thread without a player on commands that are all there, and tells which it took.
fn run(commands: Vec<PlaybackCommand>) -> (Thread, usize, bool) {
    let mut thread = Thread::new();
    thread.snapshot.set_idle_position(secs(5));
    let mut commands = commands.into_iter();
    let mut taken = 0;
    let mut action = PlaybackAction::Wait;
    loop {
        let event = match action {
            PlaybackAction::Exit => return (thread, taken, true),
            PlaybackAction::Wait => match commands.next() {
                Some(command) => {
                    taken += 1;
                    PlaybackEvent::Received(command)
                }
                None => PlaybackEvent::Disconnected,
            },
            PlaybackAction::Poll => match commands.next() {
                Some(command) => {
                    taken += 1;
                    PlaybackEvent::Received(command)
                }
                None => PlaybackEvent::NothingLeft,
            },
            _ => return (thread, taken, false),
        };
        action = thread.step(event);
    }
}

#[test]
fn commands_are_taken_up_to_the_shutdown() {
    let (thread, taken, ended) = run(vec![
        PlaybackCommand::Pause,
        PlaybackCommand::Resume,
        PlaybackCommand::Shutdown,
        PlaybackCommand::Stop,
    ]);
    assert!(ended);
    assert_eq!(taken, 3);
    assert_eq!(thread.snapshot.read().position, secs(5));
    assert_eq!(thread.session, PlaybackSession::Absent);

    let (thread, taken, ended) = run(vec![
        PlaybackCommand::Seek { position: secs(1), seek_id: 1 },
        PlaybackCommand::Stop,
        PlaybackCommand::Pause,
    ]);
    assert!(ended);
    assert_eq!(taken, 3);
    assert_eq!(thread.snapshot.read().position, Duration::zero());
    assert_eq!(thread.status(), PlaybackStatus::Idle);

    let (_, taken, ended) = run(vec![load(secs(1)), PlaybackCommand::Shutdown]);
    assert!(!ended);
    assert_eq!(taken, 1);
}
