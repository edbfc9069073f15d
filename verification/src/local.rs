//! The books of a store whose files are on this machine: which audio file is where.

use vstd::prelude::*;

use crate::file::{same_id, ProjectPath, WorktreeSnapshot};
use crate::item::{AudioId, AudioItem, FileUpdate};
use crate::table::Table;

verus! {

/// The books of a store whose files are on this machine.
#[derive(Debug)]
pub struct LocalAudioStore {
    /// The number of the next audio file; zero once all numbers have been given out.
    pub next_audio_id: u64,
    pub local_audio_ids_by_path: Table<ProjectPath, AudioId>,
    pub local_audio_ids_by_entry_id: Table<u64, AudioId>,
}

/// What is to be done about an open audio file whose file changed.
#[derive(Debug)]
pub struct ItemUpdate {
    pub handle: u64,
    pub update: FileUpdate,
}

/// Something that changed in a folder.
#[derive(Debug)]
pub struct EntryChange {
    pub path: String,
    pub entry_id: u64,
}

/// What is known of the open audio files: which is where, under which handle each was
/// opened, and what those are that are still in use.
pub struct Books {
    pub by_path: Map<(u64, Seq<char>), AudioId>,
    pub by_entry: Map<u64, AudioId>,
    pub opened: Map<u64, u64>,
    pub items: Map<u64, AudioItem>,
}

impl Books {
    /// The audio file that a change concerns: the one known by the entry, or else the one
    /// known by the path.
    pub open spec fn concerned(self, entry_id: u64, place: (u64, Seq<char>)) -> Option<AudioId> {
        if self.by_entry.contains_key(entry_id) {
            Some(self.by_entry[entry_id])
        } else if self.by_path.contains_key(place) {
            Some(self.by_path[place])
        } else {
            None
        }
    }

    /// Whether the audio file is open and in use.
    pub open spec fn live(self, audio: u64) -> bool {
        self.opened.contains_key(audio) && self.items.contains_key(self.opened[audio])
    }

    /// The open audio file with a number.
    pub open spec fn item(self, audio: u64) -> AudioItem {
        self.items[self.opened[audio]]
    }

    /// Whether what `snapshot` says of the audio file's file is news.
    pub open spec fn news(self, audio: u64, snapshot: WorktreeSnapshot) -> bool {
        let file = self.item(audio).file;
        file.worktree == snapshot.worktree && !file.refreshed(snapshot).agrees_with(file)
    }

    /// The books once an audio file that is no longer in use is forgotten.
    pub open spec fn forgetting(self, audio: u64, entry_id: u64, place: (u64, Seq<char>)) -> Books {
        Books {
            by_path: self.by_path.remove(place),
            by_entry: self.by_entry.remove(entry_id),
            opened: self.opened.remove(audio),
            ..self
        }
    }

    /// The books once an audio file's file is what `snapshot` says.
    pub open spec fn refreshing(self, audio: AudioId, snapshot: WorktreeSnapshot) -> Books {
        let item = self.item(audio@);
        let file = item.file.refreshed(snapshot);
        Books {
            by_path: if file.path@ != item.file.path@ {
                self.by_path.remove(item.file.place()).insert(file.place(), audio)
            } else {
                self.by_path
            },
            by_entry: if file.entry_id != item.file.entry_id {
                let without = match item.file.entry_id {
                    Some(id) => self.by_entry.remove(id),
                    None => self.by_entry,
                };
                match file.entry_id {
                    Some(id) => without.insert(id, audio),
                    None => without,
                }
            } else {
                self.by_entry
            },
            opened: self.opened,
            items: self.items.insert(self.opened[audio@], item.updated(file)),
        }
    }

    /// The audio file whose file changes with something in a folder, if there is one.
    pub open spec fn moved(self, change: EntryChange, snapshot: WorktreeSnapshot) -> Option<
        AudioId,
    > {
        match self.concerned(change.entry_id, (snapshot.worktree.id, change.path@)) {
            Some(audio) if self.live(audio@) && self.news(audio@, snapshot) => Some(audio),
            _ => None,
        }
    }

    /// The books after something changed in a folder.
    pub open spec fn after(self, change: EntryChange, snapshot: WorktreeSnapshot) -> Books {
        let place = (snapshot.worktree.id, change.path@);
        match self.concerned(change.entry_id, place) {
            None => self,
            Some(audio) => if !self.live(audio@) {
                self.forgetting(audio@, change.entry_id, place)
            } else if self.news(audio@, snapshot) {
                self.refreshing(audio, snapshot)
            } else {
                self
            },
        }
    }

    /// Whether `update` is what is to be done about something that changed in a folder.
    pub open spec fn answered(
        self,
        change: EntryChange,
        snapshot: WorktreeSnapshot,
        update: Option<ItemUpdate>,
    ) -> bool {
        match self.moved(change, snapshot) {
            Some(audio) => {
                &&& update matches Some(update)
                &&& update.handle == self.opened[audio@]
                &&& self.item(audio@).answers(
                    self.item(audio@).file.refreshed(snapshot),
                    update.update,
                )
            },
            None => update is None,
        }
    }

    /// The books after all these changes in a folder.
    pub open spec fn after_all(
        self,
        changes: Seq<EntryChange>,
        snapshot: WorktreeSnapshot,
    ) -> Books
        decreases changes.len(),
    {
        if changes.len() == 0 {
            self
        } else {
            self.after_all(changes.drop_last(), snapshot).after(changes.last(), snapshot)
        }
    }

    /// Whether `updates` is what is to be done about all these changes in a folder, one
    /// after the other.
    pub open spec fn all_answered(
        self,
        changes: Seq<EntryChange>,
        snapshot: WorktreeSnapshot,
        updates: Seq<ItemUpdate>,
    ) -> bool
        decreases changes.len(),
    {
        if changes.len() == 0 {
            updates.len() == 0
        } else {
            let before = self.after_all(changes.drop_last(), snapshot);
            if before.moved(changes.last(), snapshot) is Some {
                &&& updates.len() > 0
                &&& before.answered(changes.last(), snapshot, Some(updates.last()))
                &&& self.all_answered(changes.drop_last(), snapshot, updates.drop_last())
            } else {
                self.all_answered(changes.drop_last(), snapshot, updates)
            }
        }
    }

    /// The books after an audio file told that its file changed. One that another audio
    /// file's entry stands for is left out.
    pub open spec fn recorded(self, item: AudioItem) -> Books {
        match item.file.entry_id {
            Some(id) if self.by_entry.contains_key(id) => self,
            Some(id) => Books {
                by_entry: self.by_entry.insert(id, item.id),
                by_path: self.by_path.insert(item.file.place(), item.id),
                ..self
            },
            None => Books { by_path: self.by_path.insert(item.file.place(), item.id), ..self },
        }
    }
}

impl LocalAudioStore {
    /// What the books say, together with the open audio files.
    pub open spec fn books(
        self,
        opened: Table<AudioId, u64>,
        items: Table<u64, AudioItem>,
    ) -> Books {
        Books {
            by_path: self.local_audio_ids_by_path@,
            by_entry: self.local_audio_ids_by_entry_id@,
            opened: opened@,
            items: items@,
        }
    }

    /// Empty books.
    pub fn new() -> (store: LocalAudioStore)
        ensures
            store.next_audio_id == 1,
            store.local_audio_ids_by_path@ == Map::<(u64, Seq<char>), AudioId>::empty(),
            store.local_audio_ids_by_entry_id@ == Map::<u64, AudioId>::empty(),
    {
        LocalAudioStore {
            next_audio_id: 1,
            local_audio_ids_by_path: Table::new(),
            local_audio_ids_by_entry_id: Table::new(),
        }
    }

    /// Gives out the next number, unless all have been given out.
    pub fn allocate_id(&mut self) -> (id: Option<AudioId>)
        ensures
            match id {
                Some(id) => {
                    &&& id@ == old(self).next_audio_id
                    &&& old(self).next_audio_id != 0
                    &&& final(self).next_audio_id == if old(self).next_audio_id == u64::MAX {
                        0
                    } else {
                        old(self).next_audio_id + 1
                    }
                },
                None => old(self).next_audio_id == 0 && final(self).next_audio_id == 0,
            },
            final(self).local_audio_ids_by_path == old(self).local_audio_ids_by_path,
            final(self).local_audio_ids_by_entry_id == old(self).local_audio_ids_by_entry_id,
    {
        match AudioId::from_proto(self.next_audio_id) {
            Some(id) => {
                self.next_audio_id = self.next_audio_id.wrapping_add(1);
                Some(id)
            },
            None => None,
        }
    }

    /// Takes note of everything that changed in a folder, one after the other.
    pub fn local_worktree_entries_changed(
        &mut self,
        changes: &Vec<EntryChange>,
        snapshot: &WorktreeSnapshot,
        opened: &mut Table<AudioId, u64>,
        items: &mut Table<u64, AudioItem>,
    ) -> (updates: Vec<ItemUpdate>)
        ensures
            final(self).books(*final(opened), *final(items)) == old(self).books(
                *old(opened),
                *old(items),
            ).after_all(changes@, *snapshot),
            old(self).books(*old(opened), *old(items)).all_answered(
                changes@,
                *snapshot,
                updates@,
            ),
            final(self).next_audio_id == old(self).next_audio_id,
    {
        let ghost before = self.books(*opened, *items);
        let mut updates: Vec<ItemUpdate> = Vec::new();
        let mut i: usize = 0;
        while i < changes.len()
            invariant
                i <= changes@.len(),
                self.books(*opened, *items) == before.after_all(
                    changes@.take(i as int),
                    *snapshot,
                ),
                before.all_answered(changes@.take(i as int), *snapshot, updates@),
                self.next_audio_id == old(self).next_audio_id,
            decreases changes@.len() - i,
        {
            assert(changes@.take(i + 1).drop_last() =~= changes@.take(i as int));
            let ghost told = updates@;
            let update = self.local_worktree_entry_changed(&changes[i], snapshot, opened, items);
            if let Some(update) = update {
                updates.push(update);
                assert(updates@.drop_last() =~= told);
            }
            i += 1;
        }
        assert(changes@.take(i as int) =~= changes@);
        updates
    }

    /// Takes note of something that changed in a folder. The audio file that it concerns
    /// gets its new file; one that is no longer in use is forgotten.
    pub fn local_worktree_entry_changed(
        &mut self,
        change: &EntryChange,
        snapshot: &WorktreeSnapshot,
        opened: &mut Table<AudioId, u64>,
        items: &mut Table<u64, AudioItem>,
    ) -> (update: Option<ItemUpdate>)
        ensures
            final(self).books(*final(opened), *final(items)) == old(self).books(
                *old(opened),
                *old(items),
            ).after(*change, *snapshot),
            old(self).books(*old(opened), *old(items)).answered(*change, *snapshot, update),
            final(self).next_audio_id == old(self).next_audio_id,
    {
        let ghost before = self.books(*opened, *items);
        let project_path = ProjectPath {
            worktree_id: snapshot.worktree.id,
            path: change.path.clone(),
        };
        let audio_id = match self.local_audio_ids_by_entry_id.get(&change.entry_id) {
            Some(id) => *id,
            None => match self.local_audio_ids_by_path.get(&project_path) {
                Some(id) => *id,
                None => {
                    return None;
                },
            },
        };
        assert(before.concerned(change.entry_id, project_path@) == Some(audio_id));

        let handle: Option<u64> = match opened.get(&audio_id) {
            Some(handle) => if items.contains_key(handle) {
                Some(*handle)
            } else {
                None
            },
            None => None,
        };
        let handle: u64 = match handle {
            Some(handle) => handle,
            None => {
                opened.remove(&audio_id);
                self.local_audio_ids_by_path.remove(&project_path);
                self.local_audio_ids_by_entry_id.remove(&change.entry_id);
                return None;
            },
        };
        assert(before.live(audio_id@) && before.opened[audio_id@] == handle);

        let (same_worktree, new_file, unchanged) = match items.get(&handle) {
            Some(item) => {
                let new_file = item.file.refresh(snapshot);
                let unchanged = new_file.same(&item.file);
                (item.file.worktree == snapshot.worktree, new_file, unchanged)
            },
            None => {
                return None;
            },
        };
        if !same_worktree || unchanged {
            return None;
        }
        let mut item = match items.remove(&handle) {
            Some(item) => item,
            None => {
                return None;
            },
        };
        assert(item == before.item(audio_id@));
        if new_file.path != item.file.path {
            self.local_audio_ids_by_path.remove(&item.file.project_path());
            self.local_audio_ids_by_path.insert(new_file.project_path(), audio_id);
        }
        if !same_id(new_file.entry_id, item.file.entry_id) {
            if let Some(entry_id) = item.file.entry_id {
                self.local_audio_ids_by_entry_id.remove(&entry_id);
            }
            if let Some(entry_id) = new_file.entry_id {
                self.local_audio_ids_by_entry_id.insert(entry_id, audio_id);
            }
        }
        let update = item.file_updated(new_file);
        items.insert(handle, item);
        assert(items@ =~= before.refreshing(audio_id, *snapshot).items);
        Some(ItemUpdate { handle, update })
    }

    /// Takes note of where an audio file is now, after it told that its file changed.
    pub fn audio_changed_file(&mut self, audio: &AudioItem) -> (recorded: bool)
        ensures
            forall|opened: Table<AudioId, u64>, items: Table<u64, AudioItem>| #[trigger]
                final(self).books(opened, items) == old(self).books(opened, items).recorded(
                    *audio,
                ),
            recorded == !(audio.file.entry_id matches Some(id) && old(
                self,
            ).local_audio_ids_by_entry_id@.contains_key(id)),
            final(self).next_audio_id == old(self).next_audio_id,
    {
        if let Some(entry_id) = audio.file.entry_id {
            if self.local_audio_ids_by_entry_id.contains_key(&entry_id) {
                return false;
            }
            self.local_audio_ids_by_entry_id.insert(entry_id, audio.id);
        }
        self.local_audio_ids_by_path.insert(audio.file.project_path(), audio.id);
        true
    }
}

/// An audio file whose file was moved is known at its new path, and no longer at its old
/// one.
pub proof fn law_index_follows_path(books: Books, change: EntryChange, snapshot: WorktreeSnapshot)
    requires
        books.moved(change, snapshot) is Some,
    ensures
        ({
            let audio = books.moved(change, snapshot)->0;
            let old_file = books.item(audio@).file;
            let new_file = old_file.refreshed(snapshot);
            let after = books.after(change, snapshot);
            &&& after.item(audio@).file == new_file
            &&& old_file.path@ != new_file.path@ ==> {
                &&& after.by_path.contains_pair(new_file.place(), audio)
                &&& !after.by_path.contains_key(old_file.place())
            }
            &&& old_file.path@ == new_file.path@ ==> after.by_path == books.by_path
        }),
{
}

/// An audio file that another entry now stands for is known by that, and no longer by the
/// one before.
pub proof fn law_index_follows_entry(books: Books, change: EntryChange, snapshot: WorktreeSnapshot)
    requires
        books.moved(change, snapshot) is Some,
    ensures
        ({
            let audio = books.moved(change, snapshot)->0;
            let old_file = books.item(audio@).file;
            let new_file = old_file.refreshed(snapshot);
            let after = books.after(change, snapshot);
            &&& old_file.entry_id != new_file.entry_id ==> {
                &&& new_file.entry_id matches Some(id) ==> after.by_entry.contains_pair(id, audio)
                &&& old_file.entry_id matches Some(id) ==> !after.by_entry.contains_key(id)
            }
            &&& old_file.entry_id == new_file.entry_id ==> after.by_entry == books.by_entry
        }),
{
}

/// A change concerns one audio file at most: all others stay as they are, and none is
/// opened by it.
pub proof fn law_change_concerns_one_audio(
    books: Books,
    change: EntryChange,
    snapshot: WorktreeSnapshot,
    handle: u64,
)
    ensures
        ({
            let after = books.after(change, snapshot);
            &&& after.items.dom() == books.items.dom()
            &&& after.opened.submap_of(books.opened)
            &&& books.items.contains_key(handle) && (books.moved(change, snapshot) matches Some(
                audio,
            ) ==> books.opened[audio@] != handle) ==> after.items[handle] == books.items[handle]
        }),
{
    let after = books.after(change, snapshot);
    assert(after.items.dom() =~= books.items.dom());
}

/// Changes in a folder open no audio file, and give none another handle or number.
pub proof fn lemma_changes_open_nothing(
    books: Books,
    changes: Seq<EntryChange>,
    snapshot: WorktreeSnapshot,
)
    ensures
        forall|audio: u64| #[trigger]
            books.after_all(changes, snapshot).opened.contains_key(audio)
                ==> books.opened.contains_pair(
                audio,
                books.after_all(changes, snapshot).opened[audio],
            ),
        books.after_all(changes, snapshot).items.dom() == books.items.dom(),
        forall|handle: u64| #[trigger]
            books.items.contains_key(handle) ==> books.after_all(
                changes,
                snapshot,
            ).items[handle].id == books.items[handle].id,
    decreases changes.len(),
{
    if changes.len() > 0 {
        lemma_changes_open_nothing(books, changes.drop_last(), snapshot);
        let before = books.after_all(changes.drop_last(), snapshot);
        let after = books.after_all(changes, snapshot);
        assert forall|audio: u64| #[trigger]
            after.opened.contains_key(audio) implies books.opened.contains_pair(
            audio,
            after.opened[audio],
        ) by {
            assert(before.opened.contains_key(audio));
        }
        assert(after.items.dom() =~= books.items.dom());
        assert forall|handle: u64| #[trigger]
            books.items.contains_key(handle) implies after.items[handle].id
            == books.items[handle].id by {
            assert(before.items[handle].id == books.items[handle].id);
        }
    }
}

/// An audio file that is no longer in use is forgotten with the first change that concerns
/// it.
pub proof fn law_unused_audio_is_forgotten(
    books: Books,
    change: EntryChange,
    snapshot: WorktreeSnapshot,
    audio: AudioId,
)
    requires
        books.concerned(change.entry_id, (snapshot.worktree.id, change.path@)) == Some(audio),
        !books.live(audio@),
    ensures
        ({
            let after = books.after(change, snapshot);
            &&& !after.opened.contains_key(audio@)
            &&& after.items == books.items
            &&& after.concerned(change.entry_id, (snapshot.worktree.id, change.path@)) is None
        }),
{
}

/// Once an audio file has told where it is, changes to its entry concern it, and so do
/// changes at its path that no other entry stands for.
pub proof fn law_recorded_audio_is_concerned(
    books: Books,
    item: AudioItem,
    entry_id: u64,
    place: (u64, Seq<char>),
)
    requires
        item.file.entry_id matches Some(id) ==> !books.by_entry.contains_key(id),
    ensures
        item.file.entry_id == Some(entry_id) ==> books.recorded(item).concerned(entry_id, place)
            == Some(item.id),
        !books.recorded(item).by_entry.contains_key(entry_id) ==> books.recorded(item).concerned(
            entry_id,
            item.file.place(),
        ) == Some(item.id),
{
}

/// A change reaches the audio file that is known by the entry, and only where none is the one
/// known by the path: where it is in use, of that folder and not as the folder now has it, it
/// gets its new file under its own handle. Everything else that the books say stays.
pub proof fn law_a_change_reaches_the_file_it_concerns(
    books: Books,
    change: EntryChange,
    snapshot: WorktreeSnapshot,
    update: Option<ItemUpdate>,
    audio: AudioId,
    handle: u64,
)
    requires
        books.answered(change, snapshot, update),
        books.by_entry.contains_pair(change.entry_id, audio) || (!books.by_entry.contains_key(
            change.entry_id,
        ) && books.by_path.contains_pair((snapshot.worktree.id, change.path@), audio)),
        books.opened.contains_pair(audio@, handle),
        books.items.contains_key(handle),
    ensures
        ({
            let after = books.after(change, snapshot);
            let old_file = books.items[handle].file;
            let new_file = old_file.refreshed(snapshot);
            if old_file.worktree == snapshot.worktree && !new_file.agrees_with(old_file) {
                &&& update matches Some(update)
                &&& update.handle == handle
                &&& books.items[handle].answers(new_file, update.update)
                &&& after.items == books.items.insert(handle, books.items[handle].updated(new_file))
                &&& after.opened == books.opened
                &&& forall|place: (u64, Seq<char>)| #[trigger]
                    after.by_path.contains_key(place) && place != new_file.place()
                        ==> books.by_path.contains_pair(place, after.by_path[place])
                &&& forall|place: (u64, Seq<char>)| #[trigger]
                    books.by_path.contains_key(place) && place != old_file.place() && place
                        != new_file.place() ==> after.by_path.contains_pair(
                        place,
                        books.by_path[place],
                    )
                &&& forall|id: u64| #[trigger]
                    after.by_entry.contains_key(id) && new_file.entry_id != Some(id)
                        ==> books.by_entry.contains_pair(id, after.by_entry[id])
                &&& forall|id: u64| #[trigger]
                    books.by_entry.contains_key(id) && old_file.entry_id != Some(id)
                        && new_file.entry_id != Some(id) ==> after.by_entry.contains_pair(
                        id,
                        books.by_entry[id],
                    )
            } else {
                update is None && after == books
            }
        }),
{
}

/// A change that concerns no audio file changes nothing.
pub proof fn law_other_changes_are_ignored(
    books: Books,
    change: EntryChange,
    snapshot: WorktreeSnapshot,
    update: Option<ItemUpdate>,
)
    requires
        books.answered(change, snapshot, update),
        !books.by_entry.contains_key(change.entry_id),
        !books.by_path.contains_key((snapshot.worktree.id, change.path@)),
    ensures
        update is None,
        books.after(change, snapshot) == books,
{
}

/// Where a change concerns an audio file that is no longer in use, the books lose its handle,
/// the entry and the path of the change, and nothing else. Nobody is told.
pub proof fn law_only_the_unused_is_forgotten(
    books: Books,
    change: EntryChange,
    snapshot: WorktreeSnapshot,
    update: Option<ItemUpdate>,
    audio: AudioId,
)
    requires
        books.answered(change, snapshot, update),
        books.by_entry.contains_pair(change.entry_id, audio) || (!books.by_entry.contains_key(
            change.entry_id,
        ) && books.by_path.contains_pair((snapshot.worktree.id, change.path@), audio)),
        !books.opened.contains_key(audio@) || !books.items.contains_key(books.opened[audio@]),
    ensures
        ({
            let after = books.after(change, snapshot);
            &&& update is None
            &&& after.items == books.items
            &&& after.opened == books.opened.remove(audio@)
            &&& after.by_entry == books.by_entry.remove(change.entry_id)
            &&& after.by_path == books.by_path.remove((snapshot.worktree.id, change.path@))
        }),
{
}

/// Changes are taken note of one after the other: those of two lists as those of the lists
/// one behind the other, and each audio file that gets a new file is told of once for each
/// change that reaches it.
pub proof fn law_changes_come_one_after_the_other(
    books: Books,
    first: Seq<EntryChange>,
    later: Seq<EntryChange>,
    snapshot: WorktreeSnapshot,
)
    ensures
        books.after_all(first + later, snapshot) == books.after_all(
            first,
            snapshot,
        ).after_all(later, snapshot),
        books.after_all(Seq::empty(), snapshot) == books,
        first.len() == 1 ==> books.after_all(first, snapshot) == books.after(first[0], snapshot),
    decreases later.len(),
{
    reveal_with_fuel(Books::after_all, 2);
    if later.len() == 0 {
        assert(first + later =~= first);
    } else {
        law_changes_come_one_after_the_other(books, first, later.drop_last(), snapshot);
        assert((first + later).drop_last() =~= first + later.drop_last());
        assert((first + later).last() == later.last());
    }
}

/// What is told of changes grows by what is told of each: by one where the change gives an
/// audio file a new file, and else not at all.
pub proof fn law_each_change_is_told_in_turn(
    books: Books,
    changes: Seq<EntryChange>,
    change: EntryChange,
    snapshot: WorktreeSnapshot,
    updates: Seq<ItemUpdate>,
    update: Option<ItemUpdate>,
)
    requires
        books.all_answered(changes, snapshot, updates),
        books.after_all(changes, snapshot).answered(change, snapshot, update),
    ensures
        update matches Some(update) ==> books.all_answered(
            changes.push(change),
            snapshot,
            updates.push(update),
        ),
        update is None ==> books.all_answered(changes.push(change), snapshot, updates),
        updates.len() <= changes.len(),
        books.all_answered(Seq::empty(), snapshot, Seq::empty()),
    decreases changes.len(),
{
    assert(changes.push(change).drop_last() =~= changes);
    if let Some(update) = update {
        assert(updates.push(update).drop_last() =~= updates);
    }
    lemma_told_at_most_once_each(books, changes, snapshot, updates);
}

proof fn lemma_told_at_most_once_each(
    books: Books,
    changes: Seq<EntryChange>,
    snapshot: WorktreeSnapshot,
    updates: Seq<ItemUpdate>,
)
    requires
        books.all_answered(changes, snapshot, updates),
    ensures
        updates.len() <= changes.len(),
    decreases changes.len(),
{
    if changes.len() > 0 {
        let fewer = changes.drop_last();
        if books.after_all(fewer, snapshot).moved(changes.last(), snapshot) is Some {
            lemma_told_at_most_once_each(books, fewer, snapshot, updates.drop_last());
        } else {
            lemma_told_at_most_once_each(books, fewer, snapshot, updates);
        }
    }
}

/// An audio file that tells where it is, is known there and by its entry from now on; unless
/// an audio file is known by that entry already: then nothing changes. Nothing else does in
/// either case.
pub proof fn law_where_a_file_is_told_to_be(books: Books, item: AudioItem)
    ensures
        ({
            let after = books.recorded(item);
            let place = (item.file.worktree.id, item.file.path@);
            &&& after.opened == books.opened
            &&& after.items == books.items
            &&& item.file.entry_id is None ==> {
                &&& after.by_path == books.by_path.insert(place, item.id)
                &&& after.by_entry == books.by_entry
            }
            &&& item.file.entry_id matches Some(id) ==> {
                &&& books.by_entry.contains_key(id) ==> after == books
                &&& !books.by_entry.contains_key(id) ==> {
                    &&& after.by_path == books.by_path.insert(place, item.id)
                    &&& after.by_entry == books.by_entry.insert(id, item.id)
                }
            }
        }),
{
}

/// Nothing else is told of changes than what is told of each of them, in their order.
pub proof fn law_nothing_is_told_but_changes(
    books: Books,
    changes: Seq<EntryChange>,
    change: EntryChange,
    snapshot: WorktreeSnapshot,
    updates: Seq<ItemUpdate>,
)
    requires
        books.all_answered(changes.push(change), snapshot, updates),
    ensures
        ({
            let before = books.after_all(changes, snapshot);
            ||| before.answered(change, snapshot, None) && books.all_answered(
                changes,
                snapshot,
                updates,
            )
            ||| updates.len() > 0 && before.answered(
                change,
                snapshot,
                Some(updates[updates.len() - 1]),
            ) && books.all_answered(changes, snapshot, updates.take(updates.len() - 1))
        }),
        books.all_answered(Seq::empty(), snapshot, updates) ==> updates.len() == 0,
{
    assert(changes.push(change).drop_last() =~= changes);
    if updates.len() > 0 {
        assert(updates.drop_last() =~= updates.take(updates.len() - 1));
    }
}

} // verus!
