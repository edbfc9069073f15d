//! An audio file that is open: its contents, and what happens to them as the file changes.

use std::sync::Arc;

use vstd::prelude::*;

use crate::file::{DiskState, File, ProjectPath};
use crate::table::Key;

verus! {

/// The number of an open audio file. It is never zero.
#[derive(Clone, Copy, Debug, PartialEq, Eq, PartialOrd, Ord, Hash, Structural)]
pub struct AudioId {
    number: u64,
}

impl View for AudioId {
    type V = u64;

    closed spec fn view(&self) -> u64 {
        self.number
    }
}

impl Key for AudioId {
    fn same(&self, other: &Self) -> (same: bool) {
        self.number == other.number
    }
}

impl AudioId {
    #[verifier::type_invariant]
    spec fn is_not_zero(self) -> bool {
        self.number != 0
    }

    /// The audio file that goes by `number`; zero is no such number.
    pub fn from_proto(number: u64) -> (id: Option<AudioId>)
        ensures
            match id {
                Some(id) => number != 0 && id@ == number,
                None => number == 0,
            },
    {
        if number == 0 {
            None
        } else {
            Some(AudioId { number })
        }
    }

    /// The number that the audio file goes by.
    pub fn to_proto(&self) -> (number: u64)
        ensures
            number == self@,
            number != 0,
    {
        proof {
            use_type_invariant(self);
        }
        self.number
    }
}

/// What an open audio file tells those who watch it.
#[derive(Clone, Copy, Debug, PartialEq, Eq, Structural)]
pub enum AudioItemEvent {
    /// The file changed on disk, and its contents are about to be read again.
    ReloadNeeded,
    /// The contents were read again.
    Reloaded,
    /// The file was moved, deleted, or changed on disk.
    FileHandleChanged,
}

/// An order to read the contents of a file again.
#[derive(Debug)]
pub struct Reload {
    /// Which of the item's reloads this is.
    pub number: u64,
    /// Where the file to read is.
    pub path: ProjectPath,
}

/// What is to be done about a file that may have changed.
#[derive(Debug)]
pub struct FileUpdate {
    /// What is to be read again, if anything.
    pub reload: Option<Reload>,
    /// What the item tells, in this order.
    pub events: Vec<AudioItemEvent>,
}

/// An open audio file.
#[derive(Debug)]
pub struct AudioItem {
    pub id: AudioId,
    pub file: File,
    pub bytes: Arc<Vec<u8>>,
    /// The number of the last reload.
    pub last_reload: u64,
    /// The reload that is under way.
    pub reloading: Option<u64>,
}

/// The number of the reload after the one numbered `last`.
pub open spec fn reload_after(last: u64) -> u64 {
    if last == u64::MAX {
        0
    } else {
        (last + 1) as u64
    }
}

impl AudioItem {
    /// Whether `file` differs from the item's in a way that those who watch it are told.
    pub open spec fn differs(self, file: File) -> bool {
        self.file.path@ != file.path@ || self.file.disk_state != file.disk_state
    }

    /// Whether `file` has contents that may differ from the item's.
    pub open spec fn needs_reload(self, file: File) -> bool {
        self.file.disk_state != file.disk_state && file.disk_state is Present
    }

    /// The item after a reload was ordered. A file that is not on this machine is not
    /// reloaded.
    pub open spec fn reloaded(self) -> AudioItem {
        if self.file.is_local {
            AudioItem {
                last_reload: reload_after(self.last_reload),
                reloading: Some(reload_after(self.last_reload)),
                ..self
            }
        } else {
            self
        }
    }

    /// The item after its file was replaced.
    pub open spec fn updated(self, file: File) -> AudioItem {
        if self.needs_reload(file) {
            AudioItem { file, ..self.reloaded() }
        } else {
            AudioItem { file, ..self }
        }
    }

    /// Whether `reload` reads what the item's file had when it was ordered.
    pub open spec fn orders(self, reload: Option<Reload>) -> bool {
        match reload {
            Some(reload) => self.file.is_local && reload.number == reload_after(self.last_reload)
                && reload.path@ == self.file.place(),
            None => !self.file.is_local,
        }
    }

    /// What the item tells when its file is replaced.
    pub open spec fn news(self, file: File) -> Seq<AudioItemEvent> {
        (if self.needs_reload(file) {
            seq![AudioItemEvent::ReloadNeeded]
        } else {
            seq![]
        }) + (if self.differs(file) {
            seq![AudioItemEvent::FileHandleChanged]
        } else {
            seq![]
        })
    }

    /// Whether `update` is what is to be done when the item's file is replaced. Contents
    /// are read from where the file was before.
    pub open spec fn answers(self, file: File, update: FileUpdate) -> bool {
        &&& if self.needs_reload(file) {
            self.orders(update.reload)
        } else {
            update.reload is None
        }
        &&& update.events@ == self.news(file)
    }

    /// Whether the end of a reload led to `after`, and to `event`: only the one that is under
    /// way counts, and only where it read something do the contents change.
    pub open spec fn takes(
        self,
        after: AudioItem,
        number: u64,
        contents: Option<Vec<u8>>,
        event: Option<AudioItemEvent>,
    ) -> bool {
        if self.reloading == Some(number) {
            &&& after.id == self.id
            &&& after.file == self.file
            &&& after.last_reload == self.last_reload
            &&& after.reloading is None
            &&& match contents {
                Some(contents) => after.bytes@ == contents@ && event == Some(
                    AudioItemEvent::Reloaded,
                ),
                None => after.bytes == self.bytes && event is None,
            }
        } else {
            after == self && event is None
        }
    }

    /// An open audio file with these contents.
    pub fn new(id: AudioId, file: File, bytes: Vec<u8>) -> (item: AudioItem)
        ensures
            item.id == id,
            item.file == file,
            item.bytes@ == bytes@,
            item.last_reload == 0,
            item.reloading is None,
    {
        AudioItem { id, file, bytes: Arc::new(bytes), last_reload: 0, reloading: None }
    }

    /// Where the file is.
    pub fn project_path(&self) -> (path: ProjectPath)
        ensures
            path@ == self.file.place(),
    {
        self.file.project_path()
    }

    /// Where the file is on this machine, if it is there at all: at `local_path`.
    pub fn abs_path(&self, local_path: String) -> (path: Option<String>)
        ensures
            path == if self.file.is_local {
                Some(local_path)
            } else {
                None
            },
    {
        if self.file.is_local {
            Some(local_path)
        } else {
            None
        }
    }

    /// Orders the contents to be read again, from where the file is now. What was ordered
    /// before no longer counts.
    pub fn reload(&mut self) -> (reload: Option<Reload>)
        ensures
            *final(self) == old(self).reloaded(),
            old(self).orders(reload),
    {
        if !self.file.is_local {
            return None;
        }
        let number: u64 = self.last_reload.wrapping_add(1);
        self.last_reload = number;
        self.reloading = Some(number);
        Some(Reload { number, path: self.file.project_path() })
    }

    /// Takes note of what a reload read, or that it could not. Only the reload that was
    /// ordered last counts.
    pub fn reload_finished(&mut self, number: u64, contents: Option<Vec<u8>>) -> (event: Option<
        AudioItemEvent,
    >)
        ensures
            old(self).reloading != Some(number) ==> *final(self) == *old(self) && event is None,
            old(self).reloading == Some(number) ==> {
                &&& final(self).reloading is None
                &&& final(self).id == old(self).id
                &&& final(self).file == old(self).file
                &&& final(self).last_reload == old(self).last_reload
                &&& match contents {
                    Some(contents) => final(self).bytes@ == contents@ && event == Some(
                        AudioItemEvent::Reloaded,
                    ),
                    None => final(self).bytes == old(self).bytes && event is None,
                }
            },
            old(self).takes(*final(self), number, contents, event),
    {
        let current = match self.reloading {
            Some(reloading) => reloading == number,
            None => false,
        };
        if !current {
            return None;
        }
        self.reloading = None;
        match contents {
            Some(contents) => {
                self.bytes = Arc::new(contents);
                Some(AudioItemEvent::Reloaded)
            },
            None => None,
        }
    }

    /// Replaces the item's file, and orders its contents to be read again where they may
    /// have changed. They are read from where the file was before.
    pub fn file_updated(&mut self, new_file: File) -> (update: FileUpdate)
        ensures
            *final(self) == old(self).updated(new_file),
            old(self).answers(new_file, update),
    {
        let mut events: Vec<AudioItemEvent> = Vec::new();
        let mut reload: Option<Reload> = None;
        let mut file_changed = self.file.path != new_file.path;
        if self.file.disk_state != new_file.disk_state {
            file_changed = true;
            let present = match new_file.disk_state {
                DiskState::Present { .. } => true,
                _ => false,
            };
            if present {
                events.push(AudioItemEvent::ReloadNeeded);
                reload = self.reload();
            }
        }
        let ghost first = events@;
        self.file = new_file;
        if file_changed {
            events.push(AudioItemEvent::FileHandleChanged);
        }
        assert(first =~= (if old(self).needs_reload(new_file) {
            seq![AudioItemEvent::ReloadNeeded]
        } else {
            seq![]
        }));
        assert(events@ =~= old(self).news(new_file));
        FileUpdate { reload, events }
    }
}

/// A reload that another one was ordered after no longer counts.
pub proof fn law_later_reload_counts(item: AudioItem)
    requires
        item.file.is_local,
    ensures
        item.reloaded().reloading == Some(item.reloaded().last_reload),
        item.reloaded().reloaded().reloading is Some,
        item.reloaded().reloaded().reloading != item.reloaded().reloading,
{
}

/// Whether the reload that is under way, if there is one, is the last that was ordered.
pub open spec fn awaits_last_reload(item: AudioItem) -> bool {
    item.reloading matches Some(number) ==> number == item.last_reload
}

/// Whatever happens to its file, only the last reload of an audio file is ever awaited.
pub proof fn law_only_the_last_reload_is_awaited(item: AudioItem, file: File)
    requires
        awaits_last_reload(item),
    ensures
        awaits_last_reload(item.reloaded()),
        awaits_last_reload(item.updated(file)),
        awaits_last_reload((AudioItem { reloading: None, ..item })),
{
}

/// Whatever happens to its file, an open audio file keeps its number, and its contents
/// until they have been read again.
pub proof fn law_file_update_keeps_contents(item: AudioItem, file: File)
    ensures
        item.updated(file).id == item.id,
        item.updated(file).bytes == item.bytes,
        item.updated(file).file == file,
{
}

/// Contents are read again only where something that is watched changed.
pub proof fn law_reload_means_change(item: AudioItem, file: File)
    ensures
        item.needs_reload(file) ==> item.differs(file),
{
}

/// A change on disk is always followed: wherever the new file is on disk in another state
/// than the old one was, watchers are first told that the contents are read again, and a
/// file on this machine is read again from where it was, whatever else differs between
/// the two files.
pub proof fn law_a_change_on_disk_is_read(item: AudioItem, file: File, update: FileUpdate)
    requires
        item.answers(file, update),
        file.disk_state matches DiskState::Present { .. },
        file.disk_state != item.file.disk_state,
    ensures
        update.events@.len() == 2,
        update.events@[0] == AudioItemEvent::ReloadNeeded,
        update.events@[1] == AudioItemEvent::FileHandleChanged,
        item.file.is_local ==> {
            &&& update.reload matches Some(reload)
            &&& reload.path@.0 == item.file.worktree.id
            &&& reload.path@.1 == item.file.path@
            &&& item.updated(file).reloading == Some(reload.number)
            &&& item.updated(file).last_reload == reload.number
            &&& reload.number != item.last_reload
        },
        !item.file.is_local ==> {
            &&& update.reload is None
            &&& item.updated(file).reloading == item.reloading
            &&& item.updated(file).last_reload == item.last_reload
        },
{
}

/// Nothing is read where the state on disk stayed the same, or where the file is not on
/// disk: a reload that was under way stays so. Watchers are told once of a file that was
/// moved, deleted or not found, and of nothing where neither path nor state changed.
pub proof fn law_nothing_is_read_without_a_change_on_disk(
    item: AudioItem,
    file: File,
    update: FileUpdate,
)
    requires
        item.answers(file, update),
        file.disk_state == item.file.disk_state || !(file.disk_state matches DiskState::Present {
            ..
        }),
    ensures
        update.reload is None,
        item.updated(file) == (AudioItem { file, ..item }),
        item.file.path@ == file.path@ && file.disk_state == item.file.disk_state
            ==> update.events@.len() == 0,
        item.file.path@ != file.path@ || file.disk_state != item.file.disk_state
            ==> update.events@ == seq![AudioItemEvent::FileHandleChanged],
{
}

/// A reload that is asked for reads a file on this machine from where it is, and counts
/// one further than the last, from the greatest number on to zero. Nothing else changes.
pub proof fn law_a_reload_counts_on(item: AudioItem, reload: Option<Reload>)
    requires
        item.orders(reload),
    ensures
        item.file.is_local <==> reload is Some,
        reload matches Some(reload) ==> {
            &&& reload.number == if item.last_reload < 0xFFFF_FFFF_FFFF_FFFF {
                item.last_reload + 1
            } else {
                0
            }
            &&& reload.path@.0 == item.file.worktree.id
            &&& reload.path@.1 == item.file.path@
            &&& item.reloaded() == (AudioItem {
                last_reload: reload.number,
                reloading: Some(reload.number),
                ..item
            })
        },
        reload is None ==> item.reloaded() == item,
{
}

/// Of reloads that were ordered one after the other, the contents are those that the last one
/// read, in whatever order they end: an earlier one changes nothing and tells nothing. A
/// reload that read nothing leaves the contents as they were, and ends only once.
pub proof fn law_the_last_reload_has_the_contents(
    item: AudioItem,
    middle: AudioItem,
    after: AudioItem,
    contents: Option<Vec<u8>>,
    newest: Option<Vec<u8>>,
    event: Option<AudioItemEvent>,
    last_event: Option<AudioItemEvent>,
)
    requires
        item.file.is_local,
        ({
            let once = item.reloaded();
            let twice = once.reloaded();
            &&& twice.takes(middle, once.last_reload, contents, event)
            &&& middle.takes(after, twice.last_reload, newest, last_event)
        }),
    ensures
        middle == item.reloaded().reloaded(),
        event is None,
        newest matches Some(newest) ==> after.bytes@ == newest@ && last_event == Some(
            AudioItemEvent::Reloaded,
        ),
        newest is None ==> after.bytes == item.bytes && last_event is None,
        after.reloading is None,
        after.id == item.id,
        after.file == item.file,
        forall|number: u64, later: AudioItem, told: Option<AudioItemEvent>|
            after.takes(later, number, contents, told) ==> later == after && told is None,
{
    assert(item.reloaded().last_reload != item.reloaded().reloaded().last_reload);
}

} // verus!
