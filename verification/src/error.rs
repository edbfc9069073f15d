//! What can go wrong in a store of audio files.

use vstd::prelude::*;

verus! {

/// What can go wrong in a store of audio files.
#[derive(Clone, Copy, Debug, PartialEq, Eq, Structural)]
pub enum StoreError {
    /// There is no open folder for the path.
    NoSuchWorktree,
    /// All numbers have been given out, or a message bears the number zero.
    InvalidAudioId,
    /// The host answered with the number zero.
    InvalidResponse,
    /// A chunk came for an audio file that was not announced.
    UnknownAudio,
    /// An audio file was announced without its file.
    MissingFile,
    /// An audio file is in a folder that is not open.
    WorktreeNotFound,
    /// An audio file was announced with a file that makes no sense.
    InvalidFile,
    /// An audio file with that number is open and in use.
    AlreadyExists,
    /// Files on another machine cannot be reloaded.
    RemoteReload,
}

/// The text of an error.
pub open spec fn error_text(error: StoreError) -> Seq<char> {
    match error {
        StoreError::NoSuchWorktree => "no such worktree"@,
        StoreError::InvalidAudioId => "invalid audio id"@,
        StoreError::InvalidResponse => "invalid audio_id in response"@,
        StoreError::UnknownAudio => "received chunk for unknown audio"@,
        StoreError::MissingFile => "missing file in audio state"@,
        StoreError::WorktreeNotFound => "worktree not found"@,
        StoreError::InvalidFile => "invalid file in audio state"@,
        StoreError::AlreadyExists => "Audio already exists"@,
        StoreError::RemoteReload => "Reloading audio from remote is not supported"@,
    }
}

impl StoreError {
    /// The text of the error.
    pub fn message(&self) -> (text: &'static str)
        ensures
            text@ == error_text(*self),
    {
        match self {
            StoreError::NoSuchWorktree => "no such worktree",
            StoreError::InvalidAudioId => "invalid audio id",
            StoreError::InvalidResponse => "invalid audio_id in response",
            StoreError::UnknownAudio => "received chunk for unknown audio",
            StoreError::MissingFile => "missing file in audio state",
            StoreError::WorktreeNotFound => "worktree not found",
            StoreError::InvalidFile => "invalid file in audio state",
            StoreError::AlreadyExists => "Audio already exists",
            StoreError::RemoteReload => "Reloading audio from remote is not supported",
        }
    }
}

} // verus!
