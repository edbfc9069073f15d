//! The audio files that are open in a project, wherever they come from.
//!
//! An open audio file goes by a handle, which its users share. The store does not keep it
//! open: once its last user is gone, [`AudioStore::release`] takes it out.

use vstd::prelude::*;

use crate::error::StoreError;
use crate::file::{File, ProjectPath, Worktree, WorktreeSnapshot};
use crate::item::{AudioId, AudioItem, AudioItemEvent, Reload};
use crate::local::{EntryChange, ItemUpdate, LocalAudioStore};
use crate::remote::{Arrival, CreateAudioForPeer, RemoteAudioStore};
use crate::table::{Key, Table};

verus! {

/// Where the files of a store are.
#[derive(Debug)]
pub enum StoreState {
    /// On this machine.
    Local(LocalAudioStore),
    /// On another machine.
    Remote(RemoteAudioStore),
}

/// What a store tells those who watch it.
#[derive(Clone, Copy, Debug, PartialEq, Eq, Structural)]
pub enum AudioStoreEvent {
    /// An audio file was opened, under this handle.
    AudioAdded(u64),
}

/// How an audio file is loaded.
#[derive(Debug)]
pub enum OpenRequest {
    /// The file is read from its folder.
    ReadFile { worktree: Worktree, path: String },
    /// The other machine is asked for it.
    AskHost { project_id: u64, worktree_id: u64, path: String },
}

/// How an audio file is opened.
#[derive(Debug)]
pub enum Opening {
    /// It is open, under this handle.
    Open(u64),
    /// It is being loaded, for this ticket.
    Joined(u64),
    /// It is to be loaded.
    Started(OpenRequest),
}

/// A reload of an open audio file.
#[derive(Debug)]
pub struct ItemReload {
    pub handle: u64,
    pub reload: Reload,
}

/// What became of the description of a file on another machine.
#[derive(Debug)]
pub enum ResolvedFile {
    /// The folder is not open.
    NoWorktree,
    /// It makes no sense.
    Invalid,
    Found(File),
}

/// What an audio file that has arrived leads to.
#[derive(Debug)]
pub struct Arrived {
    /// Who is handed the audio file.
    pub listeners: Vec<u64>,
    pub added: Result<AudioStoreEvent, StoreError>,
}

/// The audio files that are open in a project.
#[derive(Debug)]
pub struct AudioStore {
    pub state: StoreState,
    /// The handles of the audio files that were opened, in use or not.
    pub opened_audios: Table<AudioId, u64>,
    /// The audio files that are in use.
    pub items: Table<u64, AudioItem>,
    /// The tickets of those that are being loaded.
    pub loading_audios_by_path: Table<ProjectPath, u64>,
}

/// The handles of those that are in use, in the order of the entries.
pub open spec fn in_use(entries: Seq<(AudioId, u64)>, items: Map<u64, AudioItem>) -> Seq<u64>
    decreases entries.len(),
{
    if entries.len() == 0 {
        Seq::empty()
    } else if items.contains_key(entries.last().1) {
        in_use(entries.drop_last(), items).push(entries.last().1)
    } else {
        in_use(entries.drop_last(), items)
    }
}

proof fn lemma_in_use(entries: Seq<(AudioId, u64)>, items: Map<u64, AudioItem>, handle: u64)
    ensures
        in_use(entries, items).contains(handle) <==> items.contains_key(handle) && exists|i: int|
            0 <= i < entries.len() && (#[trigger] entries[i]).1 == handle,
    decreases entries.len(),
{
    if entries.len() > 0 {
        let rest = entries.drop_last();
        lemma_in_use(rest, items, handle);
        let before = in_use(rest, items);
        if in_use(entries, items).contains(handle) {
            if before.contains(handle) {
                let i = choose|i: int| 0 <= i < rest.len() && (#[trigger] rest[i]).1 == handle;
                assert(entries[i].1 == handle);
            } else {
                assert(entries[entries.len() - 1].1 == handle);
            }
        }
        if items.contains_key(handle) && (exists|i: int|
            0 <= i < entries.len() && (#[trigger] entries[i]).1 == handle) {
            let i = choose|i: int| 0 <= i < entries.len() && (#[trigger] entries[i]).1 == handle;
            if i < rest.len() {
                assert(rest[i].1 == handle);
                let at = choose|at: int| 0 <= at < before.len() && before[at] == handle;
                assert(in_use(entries, items)[at] == handle);
            } else {
                assert(in_use(entries, items).last() == handle);
            }
        }
    }
}

/// The audio files in use after these were reloaded, one after the other.
pub open spec fn after_reloads(items: Map<u64, AudioItem>, handles: Seq<u64>) -> Map<u64, AudioItem>
    decreases handles.len(),
{
    if handles.len() == 0 {
        items
    } else {
        let before = after_reloads(items, handles.drop_last());
        if before.contains_key(handles.last()) {
            before.insert(handles.last(), before[handles.last()].reloaded())
        } else {
            before
        }
    }
}

/// Whether `reloads` are the orders that reloading these audio files leads to: one for each
/// that is in use and on this machine.
pub open spec fn reloads_ordered(
    items: Map<u64, AudioItem>,
    handles: Seq<u64>,
    reloads: Seq<ItemReload>,
) -> bool
    decreases handles.len(),
{
    if handles.len() == 0 {
        reloads.len() == 0
    } else {
        let before = after_reloads(items, handles.drop_last());
        let handle = handles.last();
        if before.contains_key(handle) && before[handle].file.is_local {
            &&& reloads.len() > 0
            &&& reloads.last().handle == handle
            &&& before[handle].orders(Some(reloads.last().reload))
            &&& reloads_ordered(items, handles.drop_last(), reloads.drop_last())
        } else {
            reloads_ordered(items, handles.drop_last(), reloads)
        }
    }
}

impl AudioStore {
    /// The handle of an audio file that is open and in use.
    pub open spec fn handle_of(self, audio: u64) -> Option<u64> {
        if self.opened_audios@.contains_key(audio) && self.items@.contains_key(
            self.opened_audios@[audio],
        ) {
            Some(self.opened_audios@[audio])
        } else {
            None
        }
    }

    /// Whether the handle is that of an open audio file at a place.
    pub open spec fn shows(self, handle: u64, place: (u64, Seq<char>)) -> bool {
        &&& exists|audio: u64| #[trigger] self.handle_of(audio) == Some(handle)
        &&& self.items@[handle].file.place() == place
    }

    /// Whether an audio file at a place is open.
    pub open spec fn has(self, place: (u64, Seq<char>)) -> bool {
        exists|handle: u64| #[trigger] self.shows(handle, place)
    }

    /// How the audio file at a path is loaded.
    pub open spec fn requests(self, path: ProjectPath, worktree: Worktree, request: OpenRequest) -> bool {
        match (self.state, request) {
            (
                StoreState::Local(_),
                OpenRequest::ReadFile { worktree: folder, path: file },
            ) => folder == worktree && file@ == path.path@,
            (
                StoreState::Remote(remote),
                OpenRequest::AskHost { project_id, worktree_id, path: file },
            ) => project_id == remote.project_id && worktree_id == worktree.id && file@
                == path.path@,
            _ => false,
        }
    }

    /// Whether opening the audio file at a path led to `after`: one that is open is shared,
    /// one that is being loaded is waited for, and any other is loaded under `ticket`, unless
    /// its folder is not open.
    pub open spec fn opens(
        self,
        after: AudioStore,
        path: ProjectPath,
        worktree: Option<Worktree>,
        ticket: u64,
        opening: Result<Opening, StoreError>,
    ) -> bool {
        let loading = self.loading_audios_by_path@;
        &&& after.state == self.state
        &&& after.opened_audios == self.opened_audios
        &&& after.items == self.items
        &&& match opening {
            Ok(Opening::Open(handle)) => self.shows(handle, path@)
                && after.loading_audios_by_path@ == loading,
            Ok(Opening::Joined(earlier)) => {
                &&& !self.has(path@)
                &&& worktree is Some
                &&& loading.contains_pair(path@, earlier)
                &&& after.loading_audios_by_path@ == loading
            },
            Ok(Opening::Started(request)) => {
                &&& !self.has(path@)
                &&& worktree is Some
                &&& !loading.contains_key(path@)
                &&& self.requests(path, worktree->0, request)
                &&& after.loading_audios_by_path@ == loading.insert(path@, ticket)
            },
            Err(error) => {
                &&& !self.has(path@)
                &&& worktree is None
                &&& error == StoreError::NoSuchWorktree
                &&& after.loading_audios_by_path@ == loading
            },
        }
    }

    /// The number that the next audio file on this machine goes by; zero, if there is none.
    pub open spec fn next_number(self) -> u64 {
        match self.state {
            StoreState::Local(local) => local.next_audio_id,
            StoreState::Remote(_) => 0,
        }
    }

    /// Whether a file that was read from this machine led to `after`: where there is a number
    /// for it that no other in use goes by, it is open under that.
    pub open spec fn loads(
        self,
        after: AudioStore,
        handle: u64,
        file: File,
        content: Seq<u8>,
        added: Result<AudioStoreEvent, StoreError>,
    ) -> bool {
        let number = self.next_number();
        &&& after.state is Local
        &&& after.loading_audios_by_path == self.loading_audios_by_path
        &&& after.next_number() == if number == 0 || number == u64::MAX {
            0
        } else {
            number + 1
        }
        &&& match added {
            Ok(event) => {
                &&& event == AudioStoreEvent::AudioAdded(handle)
                &&& number != 0
                &&& !self.taken(number, handle)
                &&& after.opened_audios@ == self.opened_audios@.insert(number, handle)
                &&& after.holds(self, handle, number, file, content)
            },
            Err(error) => {
                &&& after.items@ == self.items@
                &&& number == 0 ==> error == StoreError::InvalidAudioId && after.opened_audios@
                    == self.opened_audios@
                &&& number != 0 ==> error == StoreError::AlreadyExists && self.taken(number, handle)
                    && after.opened_audios@ == self.opened_audios@.insert(number, handle)
            },
        }
    }

    /// Whether an audio file that arrived from another machine led to `after`: it is open under
    /// its number, handed to those who wait for it, and kept for who asks next.
    pub open spec fn arrives(
        self,
        after: AudioStore,
        handle: u64,
        audio: u64,
        content: Seq<u8>,
        file: File,
        arrived: Arrived,
    ) -> bool {
        &&& self.state matches StoreState::Remote(before)
        &&& after.state matches StoreState::Remote(now)
        &&& now.delivered(before, audio, handle, arrived.listeners@)
        &&& after.loading_audios_by_path == self.loading_audios_by_path
        &&& after.opened_audios@ == self.opened_audios@.insert(audio, handle)
        &&& after.holds(self, handle, audio, file, content)
        &&& self.taken(audio, handle) ==> arrived.added == Err::<AudioStoreEvent, _>(
            StoreError::AlreadyExists,
        )
        &&& !self.taken(audio, handle) ==> arrived.added == Ok::<_, StoreError>(
            AudioStoreEvent::AudioAdded(handle),
        )
    }

    /// Whether all numbers that open audio files go by have been given out by the store.
    pub open spec fn numbered(self) -> bool {
        self.state matches StoreState::Local(local) ==> forall|audio: u64| #[trigger]
            self.opened_audios@.contains_key(audio) ==> audio < local.next_audio_id
                || local.next_audio_id == 0
    }

    /// Whether each open audio file goes by its own number.
    pub open spec fn filed(self) -> bool {
        forall|audio: u64| #[trigger]
            self.handle_of(audio) matches Some(handle) ==> self.items@[handle].id@ == audio
    }

    /// Whether no audio file was ever opened under the handle.
    pub open spec fn unused(self, handle: u64) -> bool {
        &&& !self.items@.contains_key(handle)
        &&& forall|audio: u64| #[trigger]
            self.opened_audios@.contains_key(audio) ==> self.opened_audios@[audio] != handle
    }

    /// Whether a number stands for an audio file that is in use, once `handle` is.
    pub open spec fn taken(self, audio: u64, handle: u64) -> bool {
        self.handle_of(audio) is Some || self.opened_audios@.contains_pair(audio, handle)
    }

    /// Whether one audio file more than in `before` is in use: this one, of which no reload
    /// is under way.
    pub open spec fn holds(
        self,
        before: AudioStore,
        handle: u64,
        audio: u64,
        file: File,
        content: Seq<u8>,
    ) -> bool {
        &&& self.items@.dom() == before.items@.dom().insert(handle)
        &&& self.items@.remove(handle) == before.items@
        &&& self.items@[handle].id@ == audio
        &&& self.items@[handle].file == file
        &&& self.items@[handle].bytes@ == content
        &&& self.items@[handle].last_reload == 0
        &&& self.items@[handle].reloading is None
    }

    /// Whether the store differs from `other` in nothing but the audio files that are in
    /// use.
    pub open spec fn changed_only_in_items(self, other: AudioStore) -> bool {
        &&& self.state == other.state
        &&& self.opened_audios == other.opened_audios
        &&& self.loading_audios_by_path == other.loading_audios_by_path
    }

    /// A store of audio files on this machine, with none open.
    pub fn local() -> (store: AudioStore)
        ensures
            store.state matches StoreState::Local(local) && local.next_audio_id == 1
                && local.local_audio_ids_by_path@ == Map::<(u64, Seq<char>), AudioId>::empty()
                && local.local_audio_ids_by_entry_id@ == Map::<u64, AudioId>::empty(),
            store.opened_audios@ == Map::<u64, u64>::empty(),
            store.items@ == Map::<u64, AudioItem>::empty(),
            store.loading_audios_by_path@ == Map::<(u64, Seq<char>), u64>::empty(),
            store.numbered(),
            store.filed(),
    {
        AudioStore {
            state: StoreState::Local(LocalAudioStore::new()),
            opened_audios: Table::new(),
            items: Table::new(),
            loading_audios_by_path: Table::new(),
        }
    }

    /// A store of audio files on another machine, with none open.
    pub fn remote(project_id: u64) -> (store: AudioStore)
        ensures
            store.state matches StoreState::Remote(remote) && remote.project_id == project_id
                && remote.pending() == Map::<u64, crate::remote::Pending>::empty()
                && remote.remote_audio_listeners@ == Map::<u64, Vec<u64>>::empty()
                && remote.loaded_audios@ == Map::<u64, u64>::empty(),
            store.opened_audios@ == Map::<u64, u64>::empty(),
            store.items@ == Map::<u64, AudioItem>::empty(),
            store.loading_audios_by_path@ == Map::<(u64, Seq<char>), u64>::empty(),
            store.numbered(),
            store.filed(),
    {
        AudioStore {
            state: StoreState::Remote(RemoteAudioStore::new(project_id)),
            opened_audios: Table::new(),
            items: Table::new(),
            loading_audios_by_path: Table::new(),
        }
    }

    /// The handles of the audio files that are open and in use.
    pub fn audios(&self) -> (handles: Vec<u64>)
        ensures
            handles@ == in_use(self.opened_audios.entries(), self.items@),
            forall|handle: u64| #[trigger]
                handles@.contains(handle) <==> exists|audio: u64| #[trigger]
                    self.handle_of(audio) == Some(handle),
    {
        let mut handles: Vec<u64> = Vec::new();
        let len: usize = self.opened_audios.len();
        let mut i: usize = 0;
        let ghost entries = self.opened_audios.entries();
        while i < len
            invariant
                i <= len == entries.len(),
                entries == self.opened_audios.entries(),
                handles@ == in_use(entries.take(i as int), self.items@),
            decreases len - i,
        {
            assert(entries.take(i + 1).drop_last() =~= entries.take(i as int));
            let handle: u64 = *self.opened_audios.value_at(i);
            if self.items.contains_key(&handle) {
                handles.push(handle);
            }
            i += 1;
        }
        assert(entries.take(len as int) =~= entries);
        proof {
            assert forall|handle: u64| #[trigger] handles@.contains(handle) <==> exists|audio: u64|
             #[trigger]
                self.handle_of(audio) == Some(handle) by {
                lemma_in_use(entries, self.items@, handle);
                if handles@.contains(handle) {
                    let at = choose|at: int|
                        0 <= at < entries.len() && (#[trigger] entries[at]).1 == handle;
                    assert(self.handle_of(entries[at].0@) == Some(handle));
                }
                if exists|audio: u64| #[trigger] self.handle_of(audio) == Some(handle) {
                    let audio = choose|audio: u64| #[trigger] self.handle_of(audio) == Some(handle);
                    assert(self.opened_audios@.contains_key(audio));
                    let at = choose|at: int|
                        0 <= at < entries.len() && (#[trigger] entries[at]).0@ == audio;
                    assert(self.opened_audios@.contains_pair(entries[at].0@, entries[at].1));
                }
            }
        }
        handles
    }

    /// The handle of an audio file, if it is open and in use.
    pub fn get(&self, audio_id: AudioId) -> (handle: Option<u64>)
        ensures
            handle == self.handle_of(audio_id@),
    {
        match self.opened_audios.get(&audio_id) {
            Some(handle) => if self.items.contains_key(handle) {
                Some(*handle)
            } else {
                None
            },
            None => None,
        }
    }

    /// The audio file with a handle, if it is in use.
    pub fn item(&self, handle: u64) -> (item: Option<&AudioItem>)
        ensures
            match item {
                Some(item) => self.items@.contains_pair(handle, *item),
                None => !self.items@.contains_key(handle),
            },
    {
        self.items.get(&handle)
    }

    /// The handle of an audio file at a path, if one is open there and in use.
    pub fn get_by_path(&self, path: &ProjectPath) -> (handle: Option<u64>)
        ensures
            match handle {
                Some(handle) => self.shows(handle, path@),
                None => !self.has(path@),
            },
    {
        let handles = self.audios();
        let mut i: usize = 0;
        while i < handles.len()
            invariant
                i <= handles@.len(),
                forall|handle: u64| #[trigger]
                    handles@.contains(handle) <==> exists|audio: u64| #[trigger]
                        self.handle_of(audio) == Some(handle),
                forall|j: int| 0 <= j < i ==> !self.shows(#[trigger] handles@[j], path@),
            decreases handles@.len() - i,
        {
            let handle: u64 = handles[i];
            assert(handles@.contains(handle));
            if let Some(item) = self.items.get(&handle) {
                if item.project_path().same(path) {
                    return Some(handle);
                }
            }
            i += 1;
        }
        proof {
            assert forall|handle: u64| !#[trigger] self.shows(handle, path@) by {
                if self.shows(handle, path@) {
                    assert(handles@.contains(handle));
                    let j = choose|j: int| 0 <= j < handles@.len() && handles@[j] == handle;
                    assert(!self.shows(handles@[j], path@));
                }
            }
        }
        None
    }

    /// Opens the audio file at a path, in the folder that goes by its number, if that is
    /// open. A file that is open is shared, and one that is being loaded is waited for.
    pub fn open_audio(
        &mut self,
        project_path: ProjectPath,
        worktree: Option<Worktree>,
        ticket: u64,
    ) -> (opening: Result<Opening, StoreError>)
        ensures
            final(self).state == old(self).state,
            final(self).opened_audios == old(self).opened_audios,
            final(self).items == old(self).items,
            if old(self).has(project_path@) {
                &&& opening matches Ok(Opening::Open(handle))
                &&& old(self).shows(handle, project_path@)
                &&& final(self).loading_audios_by_path == old(self).loading_audios_by_path
            } else if worktree is None {
                &&& opening == Err::<Opening, _>(StoreError::NoSuchWorktree)
                &&& final(self).loading_audios_by_path == old(self).loading_audios_by_path
            } else if old(self).loading_audios_by_path@.contains_key(project_path@) {
                &&& opening == Ok::<_, StoreError>(
                    Opening::Joined(old(self).loading_audios_by_path@[project_path@]),
                )
                &&& final(self).loading_audios_by_path == old(self).loading_audios_by_path
            } else {
                &&& opening matches Ok(Opening::Started(request))
                &&& old(self).requests(project_path, worktree->0, request)
                &&& final(self).loading_audios_by_path@ == old(
                    self,
                ).loading_audios_by_path@.insert(project_path@, ticket)
            },
            old(self).opens(*final(self), project_path, worktree, ticket, opening),
    {
        if let Some(handle) = self.get_by_path(&project_path) {
            assert(self.has(project_path@));
            return Ok(Opening::Open(handle));
        }
        let worktree = match worktree {
            Some(worktree) => worktree,
            None => {
                return Err(StoreError::NoSuchWorktree);
            },
        };
        if let Some(ticket) = self.loading_audios_by_path.get(&project_path) {
            return Ok(Opening::Joined(*ticket));
        }
        let path = project_path.path.clone();
        let request = match &self.state {
            StoreState::Local(_) => OpenRequest::ReadFile { worktree, path },
            StoreState::Remote(remote) => OpenRequest::AskHost {
                project_id: remote.project_id,
                worktree_id: worktree.id,
                path,
            },
        };
        self.loading_audios_by_path.insert(project_path, ticket);
        Ok(Opening::Started(request))
    }

    /// Takes note that the loading of the audio file at a path has come to an end, and
    /// gives its ticket.
    pub fn load_finished(&mut self, project_path: &ProjectPath) -> (ticket: Option<u64>)
        ensures
            final(self).state == old(self).state,
            final(self).opened_audios == old(self).opened_audios,
            final(self).items == old(self).items,
            final(self).loading_audios_by_path@ == old(self).loading_audios_by_path@.remove(
                project_path@,
            ),
            match ticket {
                Some(ticket) => old(self).loading_audios_by_path@.contains_pair(
                    project_path@,
                    ticket,
                ),
                None => !old(self).loading_audios_by_path@.contains_key(project_path@),
            },
    {
        self.loading_audios_by_path.remove(project_path)
    }

    /// Opens an audio file that is in use. Where another one with its number is, that is
    /// an error, and the number then stands for the new one.
    pub fn add_audio(&mut self, handle: u64) -> (added: Result<AudioStoreEvent, StoreError>)
        requires
            old(self).items@.contains_key(handle),
        ensures
            final(self).opened_audios@ == old(self).opened_audios@.insert(
                old(self).items@[handle].id@,
                handle,
            ),
            added == match old(self).handle_of(old(self).items@[handle].id@) {
                Some(_) => Err(StoreError::AlreadyExists),
                None => Ok(AudioStoreEvent::AudioAdded(handle)),
            },
            final(self).state == old(self).state,
            final(self).items == old(self).items,
            final(self).loading_audios_by_path == old(self).loading_audios_by_path,
            old(self).filed() ==> final(self).filed(),
    {
        let audio_id = match self.items.get(&handle) {
            Some(item) => item.id,
            None => {
                return Err(StoreError::AlreadyExists);
            },
        };
        let existed = self.get(audio_id).is_some();
        self.opened_audios.insert(audio_id, handle);
        assert(old(self).filed() ==> self.filed()) by {
            assert forall|audio: u64| old(self).filed() && #[trigger] self.handle_of(
                audio,
            ) is Some implies self.items@[self.handle_of(audio)->0].id@ == audio by {
                if audio != audio_id@ {
                    assert(old(self).handle_of(audio) == self.handle_of(audio));
                }
            }
        }
        if existed {
            Err(StoreError::AlreadyExists)
        } else {
            Ok(AudioStoreEvent::AudioAdded(handle))
        }
    }

    /// Opens an audio file that was read from this machine, under the next number.
    pub fn audio_loaded(&mut self, handle: u64, file: File, content: Vec<u8>) -> (added: Result<
        AudioStoreEvent,
        StoreError,
    >)
        requires
            old(self).state is Local,
            !old(self).items@.contains_key(handle),
        ensures
            final(self).state matches StoreState::Local(after) && old(
                self,
            ).state matches StoreState::Local(before) && {
                &&& after.local_audio_ids_by_path == before.local_audio_ids_by_path
                &&& after.local_audio_ids_by_entry_id == before.local_audio_ids_by_entry_id
                &&& if before.next_audio_id == 0 {
                    &&& after.next_audio_id == 0
                    &&& added == Err::<AudioStoreEvent, _>(StoreError::InvalidAudioId)
                    &&& final(self).opened_audios == old(self).opened_audios
                    &&& final(self).items == old(self).items
                } else {
                    &&& after.next_audio_id == if before.next_audio_id == u64::MAX {
                        0
                    } else {
                        before.next_audio_id + 1
                    }
                    &&& final(self).opened_audios@ == old(self).opened_audios@.insert(
                        before.next_audio_id,
                        handle,
                    )
                    &&& if old(self).taken(before.next_audio_id, handle) {
                        &&& added == Err::<AudioStoreEvent, _>(StoreError::AlreadyExists)
                        &&& final(self).items@ == old(self).items@
                    } else {
                        &&& added == Ok::<_, StoreError>(AudioStoreEvent::AudioAdded(handle))
                        &&& final(self).holds(
                            *old(self),
                            handle,
                            before.next_audio_id,
                            file,
                            content@,
                        )
                    }
                }
            },
            final(self).loading_audios_by_path == old(self).loading_audios_by_path,
            old(self).numbered() ==> final(self).numbered(),
            old(self).numbered() && old(self).state->Local_0.next_audio_id != 0 ==> added is Ok,
            old(self).filed() && old(self).unused(handle) ==> final(self).filed(),
            old(self).loads(*final(self), handle, file, content@, added),
    {
        let allocated = match &mut self.state {
            StoreState::Local(local) => local.allocate_id(),
            StoreState::Remote(_) => None,
        };
        let audio_id = match allocated {
            Some(audio_id) => audio_id,
            None => {
                return Err(StoreError::InvalidAudioId);
            },
        };
        self.items.insert(handle, AudioItem::new(audio_id, file, content));
        assert(old(self).filed() && old(self).unused(handle) ==> self.filed()) by {
            if old(self).filed() && old(self).unused(handle) {
                lemma_filed(*old(self), *self);
            }
        }
        let added = self.add_audio(handle);
        let ghost before = *self;
        if added.is_err() {
            self.items.remove(&handle);
        }
        assert(before.filed() ==> self.filed()) by {
            if before.filed() {
                lemma_filed(before, *self);
            }
        }
        assert(self.items@.remove(handle) =~= old(self).items@);
        assert(added is Err ==> self.items@ =~= old(self).items@);
        assert(added is Ok ==> self.items@.dom() =~= old(self).items@.dom().insert(handle));
        added
    }

    /// Takes an audio file out whose last user is gone.
    pub fn release(&mut self, handle: u64)
        ensures
            final(self).items@ == old(self).items@.remove(handle),
            final(self).changed_only_in_items(*old(self)),
            old(self).filed() ==> final(self).filed(),
    {
        self.items.remove(&handle);
        assert(old(self).filed() ==> self.filed()) by {
            if old(self).filed() {
                lemma_filed(*old(self), *self);
            }
        }
    }

    /// Orders the contents of audio files to be read again. Those on another machine
    /// cannot be.
    pub fn reload_audios(&mut self, audios: &Vec<u64>) -> (reloads: Result<
        Vec<ItemReload>,
        StoreError,
    >)
        ensures
            final(self).changed_only_in_items(*old(self)),
            match old(self).state {
                StoreState::Local(_) => {
                    &&& reloads matches Ok(reloads)
                    &&& final(self).items@ == after_reloads(old(self).items@, audios@)
                    &&& reloads_ordered(old(self).items@, audios@, reloads@)
                },
                StoreState::Remote(_) => {
                    &&& reloads == Err::<Vec<ItemReload>, _>(StoreError::RemoteReload)
                    &&& final(self).items == old(self).items
                },
            },
            old(self).filed() ==> final(self).filed(),
    {
        if let StoreState::Remote(_) = &self.state {
            return Err(StoreError::RemoteReload);
        }
        let ghost before = self.items@;
        let mut reloads: Vec<ItemReload> = Vec::new();
        let mut i: usize = 0;
        while i < audios.len()
            invariant
                i <= audios@.len(),
                self.changed_only_in_items(*old(self)),
                self.items@ == after_reloads(before, audios@.take(i as int)),
                reloads_ordered(before, audios@.take(i as int), reloads@),
            decreases audios@.len() - i,
        {
            assert(audios@.take(i + 1).drop_last() =~= audios@.take(i as int));
            let ghost ordered = reloads@;
            let ghost so_far = self.items@;
            let handle: u64 = audios[i];
            if let Some(item) = self.items.remove(&handle) {
                let mut item = item;
                let reload = item.reload();
                self.items.insert(handle, item);
                assert(self.items@ =~= so_far.insert(handle, so_far[handle].reloaded()));
                if let Some(reload) = reload {
                    reloads.push(ItemReload { handle, reload });
                    assert(reloads@.drop_last() =~= ordered);
                }
            } else {
                assert(self.items@ =~= so_far);
            }
            i += 1;
        }
        assert(audios@.take(i as int) =~= audios@);
        assert(old(self).filed() ==> self.filed()) by {
            lemma_reloads_keep_ids(before, audios@);
            if old(self).filed() {
                lemma_filed(*old(self), *self);
            }
        }
        Ok(reloads)
    }

    /// Takes note of what a reload read, or that it could not.
    pub fn reload_finished(&mut self, handle: u64, number: u64, contents: Option<Vec<u8>>) -> (event:
        Option<AudioItemEvent>)
        ensures
            final(self).changed_only_in_items(*old(self)),
            final(self).items@.dom() == old(self).items@.dom(),
            forall|other: u64|
                other != handle && old(self).items@.contains_key(other)
                    ==> #[trigger] final(self).items@[other] == old(self).items@[other],
            !old(self).items@.contains_key(handle) ==> event is None,
            old(self).items@.contains_key(handle) ==> {
                let before = old(self).items@[handle];
                let after = final(self).items@[handle];
                &&& after.id == before.id
                &&& after.file == before.file
                &&& after.last_reload == before.last_reload
                &&& if before.reloading == Some(number) {
                    &&& after.reloading is None
                    &&& match contents {
                        Some(contents) => after.bytes@ == contents@ && event == Some(
                            AudioItemEvent::Reloaded,
                        ),
                        None => after.bytes == before.bytes && event is None,
                    }
                } else {
                    after == before && event is None
                }
            },
            old(self).filed() ==> final(self).filed(),
    {
        let event = match self.items.remove(&handle) {
            Some(item) => {
                let mut item = item;
                let event = item.reload_finished(number, contents);
                self.items.insert(handle, item);
                event
            },
            None => None,
        };
        assert(self.items@.dom() =~= old(self).items@.dom());
        assert(old(self).filed() ==> self.filed()) by {
            if old(self).filed() {
                lemma_filed(*old(self), *self);
            }
        }
        event
    }

    /// Takes note of what an open audio file told: where its file is now.
    pub fn on_audio_event(&mut self, handle: u64, event: AudioItemEvent)
        ensures
            final(self).opened_audios == old(self).opened_audios,
            final(self).items == old(self).items,
            final(self).loading_audios_by_path == old(self).loading_audios_by_path,
            match (final(self).state, old(self).state) {
                (StoreState::Local(after), StoreState::Local(before)) => {
                    &&& after.next_audio_id == before.next_audio_id
                    &&& after.books(old(self).opened_audios, old(self).items) == if event
                        == AudioItemEvent::FileHandleChanged && old(self).items@.contains_key(
                        handle,
                    ) {
                        before.books(old(self).opened_audios, old(self).items).recorded(
                            old(self).items@[handle],
                        )
                    } else {
                        before.books(old(self).opened_audios, old(self).items)
                    }
                },
                (after, before) => after == before,
            },
    {
        if event == AudioItemEvent::FileHandleChanged {
            if let Some(item) = self.items.get(&handle) {
                if let StoreState::Local(local) = &mut self.state {
                    local.audio_changed_file(item);
                }
            }
        }
    }

    /// Takes note of what changed in a folder. Only folders on this machine count, and
    /// only for a store of files on this machine.
    pub fn worktree_entries_changed(
        &mut self,
        worktree_is_local: bool,
        changes: &Vec<EntryChange>,
        snapshot: &WorktreeSnapshot,
    ) -> (updates: Vec<ItemUpdate>)
        ensures
            final(self).loading_audios_by_path == old(self).loading_audios_by_path,
            match (final(self).state, old(self).state) {
                (StoreState::Local(after), StoreState::Local(before)) if worktree_is_local => {
                    &&& after.next_audio_id == before.next_audio_id
                    &&& after.books(final(self).opened_audios, final(self).items)
                        == before.books(old(self).opened_audios, old(self).items).after_all(
                        changes@,
                        *snapshot,
                    )
                    &&& before.books(old(self).opened_audios, old(self).items).all_answered(
                        changes@,
                        *snapshot,
                        updates@,
                    )
                },
                _ => *final(self) == *old(self) && updates@.len() == 0,
            },
            old(self).numbered() ==> final(self).numbered(),
            old(self).filed() ==> final(self).filed(),
    {
        let ghost before = *self;
        if !worktree_is_local {
            return Vec::new();
        }
        let updates = match &mut self.state {
            StoreState::Local(local) => local.local_worktree_entries_changed(
                changes,
                snapshot,
                &mut self.opened_audios,
                &mut self.items,
            ),
            StoreState::Remote(_) => Vec::new(),
        };
        proof {
            if let StoreState::Local(local) = before.state {
                let books = local.books(before.opened_audios, before.items);
                crate::local::lemma_changes_open_nothing(books, changes@, *snapshot);
                assert(self.opened_audios@ == books.after_all(changes@, *snapshot).opened);
                assert(self.items@ == books.after_all(changes@, *snapshot).items);
                if before.filed() {
                    lemma_filed(before, *self);
                }
            }
        }
        updates
    }

    /// Takes what a message from another machine brings. A store of files on this machine
    /// takes no notice.
    pub fn handle_create_audio_for_peer(&mut self, message: CreateAudioForPeer) -> (reply: Result<
        Option<Arrival>,
        StoreError,
    >)
        ensures
            final(self).opened_audios == old(self).opened_audios,
            final(self).items == old(self).items,
            final(self).loading_audios_by_path == old(self).loading_audios_by_path,
            match (final(self).state, old(self).state) {
                (StoreState::Remote(after), StoreState::Remote(before)) => {
                    &&& after.pending() == crate::remote::after_message(before.pending(), message)
                    &&& crate::remote::replied(before.pending(), message, reply)
                    &&& after.project_id == before.project_id
                    &&& after.remote_audio_listeners == before.remote_audio_listeners
                    &&& after.loaded_audios == before.loaded_audios
                },
                (after, before) => after == before && reply == Ok::<_, StoreError>(
                    None::<Arrival>,
                ),
            },
    {
        match &mut self.state {
            StoreState::Remote(remote) => remote.handle_create_audio_for_peer(message),
            StoreState::Local(_) => Ok(None),
        }
    }

    /// Opens an audio file that has arrived from another machine, and hands it to those who
    /// wait for it.
    pub fn audio_arrived(
        &mut self,
        handle: u64,
        audio_id: AudioId,
        content: Vec<u8>,
        file: ResolvedFile,
    ) -> (arrived: Arrived)
        requires
            old(self).state is Remote,
            !old(self).items@.contains_key(handle),
        ensures
            final(self).loading_audios_by_path == old(self).loading_audios_by_path,
            match file {
                ResolvedFile::NoWorktree => *final(self) == *old(self) && arrived.listeners@.len()
                    == 0 && arrived.added == Err::<AudioStoreEvent, _>(
                    StoreError::WorktreeNotFound,
                ),
                ResolvedFile::Invalid => *final(self) == *old(self) && arrived.listeners@.len()
                    == 0 && arrived.added == Err::<AudioStoreEvent, _>(StoreError::InvalidFile),
                ResolvedFile::Found(file) => {
                    &&& final(self).state matches StoreState::Remote(after)
                    &&& old(self).state matches StoreState::Remote(before)
                    &&& after.delivered(before, audio_id@, handle, arrived.listeners@)
                    &&& final(self).opened_audios@ == old(self).opened_audios@.insert(
                        audio_id@,
                        handle,
                    )
                    &&& final(self).holds(*old(self), handle, audio_id@, file, content@)
                    &&& arrived.added == if old(self).taken(audio_id@, handle) {
                        Err(StoreError::AlreadyExists)
                    } else {
                        Ok(AudioStoreEvent::AudioAdded(handle))
                    }
                },
            },
            old(self).filed() && old(self).unused(handle) ==> final(self).filed(),
            file matches ResolvedFile::Found(file) ==> old(self).arrives(
                *final(self),
                handle,
                audio_id@,
                content@,
                file,
                arrived,
            ),
    {
        let file = match file {
            ResolvedFile::NoWorktree => {
                return Arrived {
                    listeners: Vec::new(),
                    added: Err(StoreError::WorktreeNotFound),
                };
            },
            ResolvedFile::Invalid => {
                return Arrived { listeners: Vec::new(), added: Err(StoreError::InvalidFile) };
            },
            ResolvedFile::Found(file) => file,
        };
        self.items.insert(handle, AudioItem::new(audio_id, file, content));
        assert(old(self).filed() && old(self).unused(handle) ==> self.filed()) by {
            if old(self).filed() && old(self).unused(handle) {
                lemma_filed(*old(self), *self);
            }
        }
        let ghost before = *self;
        let mut listeners: Vec<u64> = Vec::new();
        if let StoreState::Remote(remote) = &mut self.state {
            listeners = remote.deliver(audio_id, handle);
        }
        assert(before.filed() ==> self.filed()) by {
            if before.filed() {
                lemma_filed(before, *self);
            }
        }
        let added = self.add_audio(handle);
        assert(self.items@.remove(handle) =~= old(self).items@);
        assert(self.items@.dom() =~= old(self).items@.dom().insert(handle));
        Arrived { listeners, added }
    }

    /// Takes the other machine's answer to the request for an audio file: hands it out, or
    /// waits for it.
    pub fn audio_opened(&mut self, number: u64, listener: u64) -> (handle: Result<
        Option<u64>,
        StoreError,
    >)
        requires
            old(self).state is Remote,
        ensures
            final(self).opened_audios == old(self).opened_audios,
            final(self).items == old(self).items,
            final(self).loading_audios_by_path == old(self).loading_audios_by_path,
            final(self).state matches StoreState::Remote(after) && old(
                self,
            ).state matches StoreState::Remote(before) && {
                &&& number == 0 ==> handle == Err::<Option<u64>, _>(StoreError::InvalidResponse)
                    && after == before
                &&& number != 0 ==> handle is Ok && after.asked(
                    before,
                    number,
                    listener,
                    handle->Ok_0,
                )
            },
    {
        match &mut self.state {
            StoreState::Remote(remote) => remote.audio_opened(number, listener),
            StoreState::Local(_) => Err(StoreError::InvalidResponse),
        }
    }
}

/// Audio files that keep their handles and numbers stay filed.
proof fn lemma_filed(before: AudioStore, after: AudioStore)
    requires
        before.filed(),
        forall|audio: u64| #[trigger]
            after.handle_of(audio) is Some ==> before.handle_of(audio) == after.handle_of(audio)
                && after.items@[after.handle_of(audio)->0].id
                == before.items@[after.handle_of(audio)->0].id,
    ensures
        after.filed(),
{
    assert forall|audio: u64| #[trigger]
        after.handle_of(audio) is Some implies after.items@[after.handle_of(audio)->0].id@
        == audio by {
        assert(before.handle_of(audio) is Some);
    }
}

/// Reloading keeps the numbers of audio files.
proof fn lemma_reloads_keep_ids(items: Map<u64, AudioItem>, handles: Seq<u64>)
    ensures
        after_reloads(items, handles).dom() == items.dom(),
        forall|handle: u64| #[trigger]
            items.contains_key(handle) ==> after_reloads(items, handles)[handle].id
                == items[handle].id,
    decreases handles.len(),
{
    if handles.len() > 0 {
        lemma_reloads_keep_ids(items, handles.drop_last());
        assert(after_reloads(items, handles).dom() =~= items.dom());
    }
}

/// An audio file that is open and in use is shared by who opens it next.
pub proof fn law_open_audio_is_shared(store: AudioStore, audio: u64, handle: u64)
    requires
        store.handle_of(audio) == Some(handle),
    ensures
        store.shows(handle, store.items@[handle].file.place()),
        store.has(store.items@[handle].file.place()),
{
    assert(store.shows(handle, store.items@[handle].file.place()));
}

/// An audio file whose last user is gone is no longer open, and all others are.
pub proof fn law_released_audio_is_closed(
    before: AudioStore,
    after: AudioStore,
    handle: u64,
    audio: u64,
)
    requires
        after.changed_only_in_items(before),
        after.items@ == before.items@.remove(handle),
    ensures
        after.handle_of(audio) == if before.handle_of(audio) == Some(handle) {
            None
        } else {
            before.handle_of(audio)
        },
{
}

/// A number that the store gives out stands for no audio file that is open.
pub proof fn law_given_numbers_are_free(store: AudioStore, audio: u64)
    requires
        store.numbered(),
        store.state matches StoreState::Local(local) && local.next_audio_id == audio && audio != 0,
    ensures
        !store.opened_audios@.contains_key(audio),
{
}

/// A number stands for an audio file exactly where it was opened under a handle that is in
/// use.
pub proof fn law_numbers_stand_for_files_in_use(store: AudioStore, audio: u64, handle: u64)
    ensures
        store.handle_of(audio) == Some(handle) <==> store.opened_audios@.contains_pair(audio, handle)
            && store.items@.contains_key(handle),
        store.taken(audio, handle) <==> (store.opened_audios@.contains_key(audio) && (
        store.items@.contains_key(store.opened_audios@[audio]) || store.opened_audios@[audio]
            == handle)),
{
}

/// What is found at a place is an audio file that is open and in use, and whose folder and
/// path are those of the place; and where there is one, something is found.
pub proof fn law_files_are_found_where_they_are(
    store: AudioStore,
    handle: u64,
    audio: u64,
    place: (u64, Seq<char>),
)
    ensures
        store.shows(handle, place) ==> {
            &&& store.items@.contains_key(handle)
            &&& store.items@[handle].file.worktree.id == place.0
            &&& store.items@[handle].file.path@ == place.1
            &&& exists|number: u64| #[trigger]
                store.opened_audios@.contains_key(number) && store.opened_audios@[number] == handle
        },
        store.opened_audios@.contains_pair(audio, handle) && store.items@.contains_key(handle)
            && store.items@[handle].file.worktree.id == place.0 && store.items@[handle].file.path@
            == place.1 ==> store.shows(handle, place) && store.has(place),
        store.has(place) ==> exists|found: u64| #[trigger] store.shows(found, place),
{
    if store.shows(handle, place) {
        let number = choose|number: u64| #[trigger] store.handle_of(number) == Some(handle);
        assert(store.opened_audios@.contains_key(number));
    }
    if store.opened_audios@.contains_pair(audio, handle) && store.items@.contains_key(handle)
        && store.items@[handle].file.worktree.id == place.0 && store.items@[handle].file.path@
        == place.1 {
        assert(store.handle_of(audio) == Some(handle));
    }
}

/// A store of files on this machine reads the file in its folder, and one of files on another
/// asks there for the project's file, by the number of the folder and the path.
pub proof fn law_files_are_asked_for_where_they_are(
    store: AudioStore,
    path: ProjectPath,
    worktree: Worktree,
    request: OpenRequest,
)
    requires
        store.requests(path, worktree, request),
    ensures
        store.state is Local ==> (request matches OpenRequest::ReadFile { worktree: folder, path: file }
            && folder == worktree && file@ == path.path@),
        store.state matches StoreState::Remote(remote) ==> (request matches OpenRequest::AskHost {
            project_id,
            worktree_id,
            path: file,
        } && project_id == remote.project_id && worktree_id == worktree.id && file@ == path.path@),
{
}

/// The audio files in use are listed in the order in which they were opened, each that is and
/// none that is not.
pub proof fn law_files_in_use_are_listed_in_order(
    entries: Seq<(AudioId, u64)>,
    entry: (AudioId, u64),
    items: Map<u64, AudioItem>,
)
    ensures
        in_use(Seq::empty(), items).len() == 0,
        items.contains_key(entry.1) ==> in_use(entries.push(entry), items) == in_use(
            entries,
            items,
        ).push(entry.1),
        !items.contains_key(entry.1) ==> in_use(entries.push(entry), items) == in_use(
            entries,
            items,
        ),
{
    assert(entries.push(entry).drop_last() =~= entries);
}

/// What reloading does to one audio file: where it is not among those to be reloaded, or is
/// not on this machine, nothing; and all of them keep their number, their file and their
/// contents.
pub proof fn law_only_named_files_are_reloaded(
    items: Map<u64, AudioItem>,
    handles: Seq<u64>,
    handle: u64,
)
    requires
        items.contains_key(handle),
    ensures
        after_reloads(items, handles).contains_key(handle),
        !handles.contains(handle) || !items[handle].file.is_local ==> after_reloads(
            items,
            handles,
        )[handle] == items[handle],
        after_reloads(items, handles)[handle].id == items[handle].id,
        after_reloads(items, handles)[handle].file == items[handle].file,
        after_reloads(items, handles)[handle].bytes == items[handle].bytes,
        after_reloads(items, handles).dom() == items.dom(),
    decreases handles.len(),
{
    if handles.len() > 0 {
        let fewer = handles.drop_last();
        law_only_named_files_are_reloaded(items, fewer, handle);
        assert(handles[handles.len() - 1] == handles.last());
        if fewer.contains(handle) {
            let i = choose|i: int| 0 <= i < fewer.len() && fewer[i] == handle;
            assert(handles[i] == handle);
        }
        let before = after_reloads(items, fewer);
        assert(after_reloads(items, handles).dom() =~= items.dom());
    }
}

/// Audio files on this machine that are in use, each named once, are all read again, in the
/// order in which they are named, each from where it is and under its next number; and that
/// number is then awaited.
pub proof fn law_named_files_are_all_reloaded(
    items: Map<u64, AudioItem>,
    handles: Seq<u64>,
    reloads: Seq<ItemReload>,
)
    requires
        handles.no_duplicates(),
        forall|i: int|
            0 <= i < handles.len() ==> items.contains_key(#[trigger] handles[i])
                && items[handles[i]].file.is_local,
        reloads_ordered(items, handles, reloads),
    ensures
        reloads.len() == handles.len(),
        forall|i: int|
            #![trigger handles[i]]
            #![trigger reloads[i]]
            0 <= i < handles.len() ==> {
                let item = items[handles[i]];
                &&& reloads[i].handle == handles[i]
                &&& reloads[i].reload.path@ == (item.file.worktree.id, item.file.path@)
                &&& reloads[i].reload.number == if item.last_reload < 0xFFFF_FFFF_FFFF_FFFF {
                    item.last_reload + 1
                } else {
                    0
                }
                &&& after_reloads(items, handles)[handles[i]].reloading == Some(
                    reloads[i].reload.number,
                )
                &&& after_reloads(items, handles)[handles[i]].last_reload
                    == reloads[i].reload.number
            },
    decreases handles.len(),
{
    if handles.len() > 0 {
        let fewer = handles.drop_last();
        let last = handles.len() - 1;
        let handle = handles.last();
        assert(handles[last] == handle);
        assert(items.contains_key(handle) && items[handle].file.is_local);
        assert forall|i: int| 0 <= i < fewer.len() implies items.contains_key(
            #[trigger] fewer[i],
        ) && items[fewer[i]].file.is_local by {
            assert(fewer[i] == handles[i]);
        }
        assert(!fewer.contains(handle)) by {
            if fewer.contains(handle) {
                let i = choose|i: int| 0 <= i < fewer.len() && fewer[i] == handle;
                assert(handles[i] == handles[last]);
            }
        }
        assert(fewer.no_duplicates()) by {
            assert forall|i: int, j: int|
                0 <= i < fewer.len() && 0 <= j < fewer.len() && i != j implies fewer[i]
                != fewer[j] by {
                assert(fewer[i] == handles[i] && fewer[j] == handles[j]);
            }
        }
        law_only_named_files_are_reloaded(items, fewer, handle);
        let before = after_reloads(items, fewer);
        assert(before[handle] == items[handle]);
        law_named_files_are_all_reloaded(items, fewer, reloads.drop_last());
        assert(reloads[last] == reloads.last());
        assert forall|i: int|
            #![trigger handles[i]]
            #![trigger reloads[i]]
            0 <= i < handles.len() implies {
            let item = items[handles[i]];
            &&& reloads[i].handle == handles[i]
            &&& reloads[i].reload.path@ == (item.file.worktree.id, item.file.path@)
            &&& reloads[i].reload.number == if item.last_reload < 0xFFFF_FFFF_FFFF_FFFF {
                item.last_reload + 1
            } else {
                0
            }
            &&& after_reloads(items, handles)[handles[i]].reloading == Some(
                reloads[i].reload.number,
            )
            &&& after_reloads(items, handles)[handles[i]].last_reload == reloads[i].reload.number
        } by {
            if i < last {
                assert(fewer[i] == handles[i]);
                assert(reloads.drop_last()[i] == reloads[i]);
                assert(handles[i] != handle);
            }
        }
    }
}

/// Nothing is read for audio files of which none is both in use and on this machine.
pub proof fn law_other_files_are_not_reloaded(
    items: Map<u64, AudioItem>,
    handles: Seq<u64>,
    reloads: Seq<ItemReload>,
)
    requires
        forall|i: int|
            0 <= i < handles.len() ==> !(items.contains_key(#[trigger] handles[i])
                && items[handles[i]].file.is_local),
        reloads_ordered(items, handles, reloads),
    ensures
        reloads.len() == 0,
        after_reloads(items, handles) == items,
    decreases handles.len(),
{
    if handles.len() > 0 {
        let fewer = handles.drop_last();
        let handle = handles.last();
        assert(handles[handles.len() - 1] == handle);
        assert forall|i: int| 0 <= i < fewer.len() implies !(items.contains_key(
            #[trigger] fewer[i],
        ) && items[fewer[i]].file.is_local) by {
            assert(fewer[i] == handles[i]);
        }
        if items.contains_key(handle) {
            law_only_named_files_are_reloaded(items, fewer, handle);
            assert(!after_reloads(items, fewer)[handle].file.is_local);
        } else {
            lemma_reloads_keep_ids(items, fewer);
            assert(!after_reloads(items, fewer).contains_key(handle));
        }
        law_other_files_are_not_reloaded(items, fewer, reloads);
        assert(after_reloads(items, handles) =~= items);
    }
}

/// An audio file that comes into use does so as what it is: under its number, with its file
/// and its contents, and with no reload behind it; all others stay.
pub proof fn law_a_file_comes_into_use_as_it_is(
    before: AudioStore,
    after: AudioStore,
    handle: u64,
    other: u64,
    audio: u64,
    file: File,
    content: Seq<u8>,
)
    requires
        after.holds(before, handle, audio, file, content),
        other != handle,
    ensures
        after.items@.contains_key(handle),
        after.items@[handle].id@ == audio,
        after.items@[handle].file == file,
        after.items@[handle].bytes@ == content,
        after.items@[handle].last_reload == 0,
        after.items@[handle].reloading is None,
        after.items@.contains_key(other) == before.items@.contains_key(other),
        before.items@.contains_key(other) ==> after.items@[other] == before.items@[other],
{
    assert(after.items@.dom().contains(handle));
    assert(after.items@.remove(handle).contains_key(other) == before.items@.contains_key(other));
    assert(after.items@.remove(handle)[other] == before.items@[other]);
}

/// Reloads are ordered one after the other: a further audio file that is in use and on this
/// machine adds its own order behind the others, and any other adds nothing.
pub proof fn law_reloads_are_ordered_in_turn(
    items: Map<u64, AudioItem>,
    handles: Seq<u64>,
    handle: u64,
    reloads: Seq<ItemReload>,
)
    ensures
        ({
            let before = after_reloads(items, handles);
            let after = after_reloads(items, handles.push(handle));
            if items.contains_key(handle) && items[handle].file.is_local {
                &&& reloads_ordered(items, handles.push(handle), reloads) <==> {
                    &&& reloads.len() > 0
                    &&& reloads[reloads.len() - 1].handle == handle
                    &&& reloads[reloads.len() - 1].reload.path@ == (
                        items[handle].file.worktree.id,
                        items[handle].file.path@,
                    )
                    &&& reloads[reloads.len() - 1].reload.number == after[handle].last_reload
                    &&& reloads_ordered(items, handles, reloads.take(reloads.len() - 1))
                }
                &&& after == before.insert(
                    handle,
                    AudioItem {
                        last_reload: after[handle].last_reload,
                        reloading: Some(after[handle].last_reload),
                        ..before[handle]
                    },
                )
                &&& after[handle].last_reload == if before[handle].last_reload
                    < 0xFFFF_FFFF_FFFF_FFFF {
                    before[handle].last_reload + 1
                } else {
                    0
                }
            } else {
                &&& reloads_ordered(items, handles.push(handle), reloads) <==> reloads_ordered(
                    items,
                    handles,
                    reloads,
                )
                &&& after == before
            }
        }),
        reloads_ordered(items, Seq::empty(), reloads) <==> reloads.len() == 0,
        after_reloads(items, Seq::empty()) == items,
{
    let before = after_reloads(items, handles);
    let after = after_reloads(items, handles.push(handle));
    assert(handles.push(handle).drop_last() =~= handles);
    if reloads.len() > 0 {
        assert(reloads.drop_last() =~= reloads.take(reloads.len() - 1));
    }
    lemma_reloads_keep_ids(items, handles);
    if items.contains_key(handle) {
        law_only_named_files_are_reloaded(items, handles, handle);
        if !items[handle].file.is_local {
            assert(after =~= before);
        }
    } else {
        assert(!before.contains_key(handle));
    }
}

/// A file that two open one after the other is loaded once: the second waits for what the
/// first started, or shares what the first was given. Opening never changes what is open.
pub proof fn law_a_file_is_loaded_once(
    before: AudioStore,
    between: AudioStore,
    after: AudioStore,
    path: ProjectPath,
    worktree: Worktree,
    first: u64,
    second: u64,
    opening: Result<Opening, StoreError>,
    again: Result<Opening, StoreError>,
)
    requires
        before.opens(between, path, Some(worktree), first, opening),
        between.opens(after, path, Some(worktree), second, again),
    ensures
        opening is Ok && again is Ok,
        opening matches Ok(Opening::Started(_)) ==> again == Ok::<_, StoreError>(
            Opening::Joined(first),
        ),
        opening matches Ok(Opening::Joined(ticket)) ==> again == Ok::<_, StoreError>(
            Opening::Joined(ticket),
        ),
        opening matches Ok(Opening::Open(_)) ==> again matches Ok(Opening::Open(_)),
        after.opened_audios == before.opened_audios,
        after.items == before.items,
        after.state == before.state,
        after.loading_audios_by_path@ == between.loading_audios_by_path@,
{
    assert forall|handle: u64, place: (u64, Seq<char>)| #[trigger]
        between.shows(handle, place) implies before.shows(handle, place) by {
        let audio = choose|audio: u64| #[trigger] between.handle_of(audio) == Some(handle);
        assert(before.handle_of(audio) == Some(handle));
    }
    assert forall|handle: u64, place: (u64, Seq<char>)| #[trigger]
        before.shows(handle, place) implies between.shows(handle, place) by {
        let audio = choose|audio: u64| #[trigger] before.handle_of(audio) == Some(handle);
        assert(between.handle_of(audio) == Some(handle));
    }
    assert(between.has(path@) <==> before.has(path@)) by {
        if before.has(path@) {
            let handle = choose|handle: u64| #[trigger] before.shows(handle, path@);
            assert(between.shows(handle, path@));
        }
        if between.has(path@) {
            let handle = choose|handle: u64| #[trigger] between.shows(handle, path@);
            assert(before.shows(handle, path@));
        }
    }
}

/// A file in a folder that is not open is opened only where it is open already.
pub proof fn law_closed_folders_open_nothing(
    before: AudioStore,
    after: AudioStore,
    path: ProjectPath,
    ticket: u64,
    opening: Result<Opening, StoreError>,
)
    requires
        before.opens(after, path, None, ticket, opening),
    ensures
        before.has(path@) ==> (opening matches Ok(Opening::Open(handle)) && before.shows(
            handle,
            path@,
        )),
        !before.has(path@) ==> opening == Err::<Opening, _>(StoreError::NoSuchWorktree),
        after.loading_audios_by_path@ == before.loading_audios_by_path@,
{
}

/// Files that are read one after the other are open side by side, each under a number of its
/// own, with its own file and contents.
pub proof fn law_loaded_files_stand_side_by_side(
    before: AudioStore,
    between: AudioStore,
    after: AudioStore,
    first: u64,
    second: u64,
    file: File,
    other_file: File,
    content: Seq<u8>,
    other_content: Seq<u8>,
    added: Result<AudioStoreEvent, StoreError>,
    other_added: Result<AudioStoreEvent, StoreError>,
)
    requires
        before.state is Local,
        before.numbered(),
        0 < before.next_number() < 0xFFFF_FFFF_FFFF_FFFF,
        before.unused(first),
        first != second,
        before.loads(between, first, file, content, added),
        between.loads(after, second, other_file, other_content, other_added),
        between.numbered(),
    ensures
        added == Ok::<_, StoreError>(AudioStoreEvent::AudioAdded(first)),
        other_added == Ok::<_, StoreError>(AudioStoreEvent::AudioAdded(second)),
        ({
            let number = before.next_number();
            let next = (before.next_number() + 1) as u64;
            &&& after.handle_of(number) == Some(first)
            &&& after.handle_of(next) == Some(second)
            &&& after.items@[first].id@ == number
            &&& after.items@[first].file == file
            &&& after.items@[first].bytes@ == content
            &&& after.items@[second].id@ == next
            &&& after.items@[second].file == other_file
            &&& after.items@[second].bytes@ == other_content
        }),
{
    let number = before.next_number();
    let next = between.next_number();
    assert(!before.opened_audios@.contains_key(number));
    assert(!before.taken(number, first));
    assert(!between.opened_audios@.contains_key(next));
    assert(!between.taken(next, second));
    assert(after.items@.remove(second) == between.items@);
    assert(between.items@.dom().contains(first));
    assert(after.items@.remove(second)[first] == between.items@[first]);
    assert(after.items@.dom().contains(first) && after.items@.dom().contains(second));
}

/// An audio file that arrived is open under its number with what arrived of it, and who asks
/// for it next is handed it.
pub proof fn law_what_arrives_is_open(
    before: AudioStore,
    after: AudioStore,
    handle: u64,
    audio: u64,
    content: Seq<u8>,
    file: File,
    arrived: Arrived,
)
    requires
        before.arrives(after, handle, audio, content, file, arrived),
    ensures
        after.handle_of(audio) == Some(handle),
        after.items@[handle].id@ == audio,
        after.items@[handle].file == file,
        after.items@[handle].bytes@ == content,
        after.shows(handle, (file.worktree.id, file.path@)),
        arrived.added is Ok <==> !before.taken(audio, handle),
        before.state matches StoreState::Remote(remote) && arrived.listeners@ == remote.waiting(
            audio,
        ),
        after.state matches StoreState::Remote(remote) && remote.loaded_audios@.contains_pair(
            audio,
            handle,
        ) && remote.waiting(audio).len() == 0,
{
    assert(after.items@.dom().contains(handle));
    assert(after.handle_of(audio) == Some(handle));
}

} // verus!
