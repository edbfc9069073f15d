//! Files of a project: where they are, what is known of their state on disk, and which of
//! them hold audio.

use vstd::prelude::*;
use vstd::string::*;

use crate::table::Key;

verus! {

/// A folder that is open in a project.
#[derive(Clone, Copy, Debug, PartialEq, Eq, Structural)]
pub struct Worktree {
    /// The folder itself: no two open folders have the same.
    pub handle: u64,
    /// The number that it goes by among the collaborators of the project.
    pub id: u64,
}

/// A place in a project: a path relative to one of its folders, with `/` between its
/// components.
#[derive(Debug)]
pub struct ProjectPath {
    pub worktree_id: u64,
    pub path: String,
}

impl View for ProjectPath {
    type V = (u64, Seq<char>);

    open spec fn view(&self) -> (u64, Seq<char>) {
        (self.worktree_id, self.path@)
    }
}

impl Key for ProjectPath {
    fn same(&self, other: &Self) -> (same: bool) {
        self.worktree_id == other.worktree_id && self.path == other.path
    }
}

impl Clone for ProjectPath {
    fn clone(&self) -> (copy: Self)
        ensures
            copy == *self,
    {
        ProjectPath { worktree_id: self.worktree_id, path: self.path.clone() }
    }
}

/// The state of a file on disk. Times are nanoseconds since the start of 1970.
#[derive(Clone, Copy, Debug, PartialEq, Eq, Structural)]
pub enum DiskState {
    /// Not saved yet.
    New,
    Present { mtime: i128, size: u64 },
    /// Was there once.
    Deleted,
    /// An older version of a file.
    Historic { was_deleted: bool },
}

impl DiskState {
    /// Whether the file is gone.
    pub open spec fn gone(self) -> bool {
        match self {
            DiskState::Deleted => true,
            DiskState::Historic { was_deleted } => was_deleted,
            _ => false,
        }
    }

    /// Whether the file is gone.
    pub fn is_deleted(&self) -> (deleted: bool)
        ensures
            deleted == self.gone(),
    {
        match self {
            DiskState::Deleted => true,
            DiskState::Historic { was_deleted } => *was_deleted,
            _ => false,
        }
    }
}

/// A file of a project.
#[derive(Debug)]
pub struct File {
    pub worktree: Worktree,
    pub path: String,
    pub disk_state: DiskState,
    /// The entry of the folder that stands for the file.
    pub entry_id: Option<u64>,
    /// Whether the folder is on this machine.
    pub is_local: bool,
    pub is_private: bool,
}

/// What a folder knows of something in it.
#[derive(Debug)]
pub struct Entry {
    pub id: u64,
    pub path: String,
    pub mtime: Option<i128>,
    pub size: u64,
    pub is_private: bool,
}

/// What a folder holds at some time.
#[derive(Debug)]
pub struct WorktreeSnapshot {
    pub worktree: Worktree,
    pub entries: Vec<Entry>,
}

/// The first entry with the number `id`.
pub open spec fn entry_with_id(entries: Seq<Entry>, id: u64) -> Option<Entry>
    decreases entries.len(),
{
    if entries.len() == 0 {
        None
    } else if entries[0].id == id {
        Some(entries[0])
    } else {
        entry_with_id(entries.skip(1), id)
    }
}

/// The first entry at `path`.
pub open spec fn entry_at_path(entries: Seq<Entry>, path: Seq<char>) -> Option<Entry>
    decreases entries.len(),
{
    if entries.len() == 0 {
        None
    } else if entries[0].path@ == path {
        Some(entries[0])
    } else {
        entry_at_path(entries.skip(1), path)
    }
}

/// The same of an optional reference as a value.
pub open spec fn pointed_to<T>(reference: Option<&T>) -> Option<T> {
    match reference {
        Some(value) => Some(*value),
        None => None,
    }
}

impl WorktreeSnapshot {
    /// The entry with the number `id`.
    pub fn entry_for_id(&self, id: u64) -> (entry: Option<&Entry>)
        ensures
            pointed_to(entry) == entry_with_id(self.entries@, id),
    {
        let mut i: usize = 0;
        assert(self.entries@.skip(0) =~= self.entries@);
        while i < self.entries.len()
            invariant
                i <= self.entries@.len(),
                entry_with_id(self.entries@, id) == entry_with_id(
                    self.entries@.skip(i as int),
                    id,
                ),
            decreases self.entries@.len() - i,
        {
            assert(self.entries@.skip(i as int).skip(1) =~= self.entries@.skip(i + 1));
            if self.entries[i].id == id {
                return Some(&self.entries[i]);
            }
            i += 1;
        }
        None
    }

    /// The entry at `path`.
    pub fn entry_for_path(&self, path: &String) -> (entry: Option<&Entry>)
        ensures
            pointed_to(entry) == entry_at_path(self.entries@, path@),
    {
        let mut i: usize = 0;
        assert(self.entries@.skip(0) =~= self.entries@);
        while i < self.entries.len()
            invariant
                i <= self.entries@.len(),
                entry_at_path(self.entries@, path@) == entry_at_path(
                    self.entries@.skip(i as int),
                    path@,
                ),
            decreases self.entries@.len() - i,
        {
            assert(self.entries@.skip(i as int).skip(1) =~= self.entries@.skip(i + 1));
            if self.entries[i].path == *path {
                return Some(&self.entries[i]);
            }
            i += 1;
        }
        None
    }
}

impl File {
    /// Where the file is, as a key of tables.
    pub open spec fn place(self) -> (u64, Seq<char>) {
        (self.worktree.id, self.path@)
    }

    /// Whether both say the same of a file.
    pub open spec fn agrees_with(self, other: File) -> bool {
        &&& self.worktree == other.worktree
        &&& self.path@ == other.path@
        &&& self.disk_state == other.disk_state
        &&& self.entry_id == other.entry_id
        &&& self.is_local == other.is_local
        &&& self.is_private == other.is_private
    }

    /// What a folder has for the file: the entry that stands for it, wherever that is
    /// now, or else what is at its path.
    pub open spec fn entry_in(self, entries: Seq<Entry>) -> Option<Entry> {
        match self.entry_id {
            Some(id) if entry_with_id(entries, id) is Some => entry_with_id(entries, id),
            _ => entry_at_path(entries, self.path@),
        }
    }

    /// The file as its folder now has it. One that the folder has nothing for is deleted;
    /// an entry whose time is not known says nothing of the state on disk.
    pub open spec fn refreshed(self, snapshot: WorktreeSnapshot) -> File {
        match self.entry_in(snapshot.entries@) {
            Some(entry) => File {
                worktree: snapshot.worktree,
                path: entry.path,
                disk_state: match entry.mtime {
                    Some(mtime) => DiskState::Present { mtime, size: entry.size },
                    None => self.disk_state,
                },
                entry_id: Some(entry.id),
                is_local: true,
                is_private: entry.is_private,
            },
            None => File {
                worktree: snapshot.worktree,
                disk_state: DiskState::Deleted,
                is_local: true,
                ..self
            },
        }
    }

    /// Where the file is.
    pub fn project_path(&self) -> (path: ProjectPath)
        ensures
            path@ == self.place(),
            path.path == self.path,
    {
        ProjectPath { worktree_id: self.worktree.id, path: self.path.clone() }
    }

    /// Whether both say the same of a file.
    pub fn same(&self, other: &File) -> (same: bool)
        ensures
            same == self.agrees_with(*other),
    {
        self.worktree == other.worktree && self.path == other.path && self.disk_state
            == other.disk_state && same_id(self.entry_id, other.entry_id) && self.is_local
            == other.is_local && self.is_private == other.is_private
    }

    /// The file as its folder now has it.
    pub fn refresh(&self, snapshot: &WorktreeSnapshot) -> (file: File)
        ensures
            file == self.refreshed(*snapshot),
    {
        let by_id = match self.entry_id {
            Some(id) => snapshot.entry_for_id(id),
            None => None,
        };
        let found = match by_id {
            Some(entry) => Some(entry),
            None => snapshot.entry_for_path(&self.path),
        };
        match found {
            Some(entry) => File {
                worktree: snapshot.worktree,
                path: entry.path.clone(),
                disk_state: match entry.mtime {
                    Some(mtime) => DiskState::Present { mtime, size: entry.size },
                    None => self.disk_state,
                },
                entry_id: Some(entry.id),
                is_local: true,
                is_private: entry.is_private,
            },
            None => File {
                worktree: snapshot.worktree,
                path: self.path.clone(),
                disk_state: DiskState::Deleted,
                entry_id: self.entry_id,
                is_local: true,
                is_private: self.is_private,
            },
        }
    }
}

/// Whether both are the same number, or both none.
pub fn same_id(a: Option<u64>, b: Option<u64>) -> (same: bool)
    ensures
        same == (a == b),
{
    match (a, b) {
        (Some(a), Some(b)) => a == b,
        (None, None) => true,
        _ => false,
    }
}

/// A file that its folder has no entry for is deleted, and stays what it was otherwise.
pub proof fn law_missing_file_is_deleted(file: File, snapshot: WorktreeSnapshot)
    requires
        forall|i: int|
            0 <= i < snapshot.entries@.len() ==> (#[trigger] snapshot.entries@[i]).path@
                != file.path@ && file.entry_id != Some(snapshot.entries@[i].id),
    ensures
        file.refreshed(snapshot).disk_state == DiskState::Deleted,
        file.refreshed(snapshot).path == file.path,
        file.refreshed(snapshot).entry_id == file.entry_id,
        file.refreshed(snapshot).is_private == file.is_private,
        file.refreshed(snapshot).worktree == snapshot.worktree,
        file.refreshed(snapshot).is_local,
{
    lemma_no_entry(snapshot.entries@, file);
}

proof fn lemma_no_entry(entries: Seq<Entry>, file: File)
    requires
        forall|i: int|
            0 <= i < entries.len() ==> (#[trigger] entries[i]).path@ != file.path@ && file.entry_id
                != Some(entries[i].id),
    ensures
        entry_at_path(entries, file.path@) is None,
        file.entry_id matches Some(id) ==> entry_with_id(entries, id) is None,
    decreases entries.len(),
{
    if entries.len() > 0 {
        assert forall|i: int| 0 <= i < entries.skip(1).len() implies (#[trigger] entries.skip(
            1,
        )[i]).path@ != file.path@ && file.entry_id != Some(entries.skip(1)[i].id) by {
            assert(entries.skip(1)[i] == entries[i + 1]);
        }
        assert(entries[0].path@ != file.path@);
        lemma_no_entry(entries.skip(1), file);
    }
}

/// A file that was moved is followed: the entry that stands for it counts, whatever is at
/// its old path.
pub proof fn law_moved_file_is_followed(file: File, snapshot: WorktreeSnapshot, id: u64, at: int)
    requires
        file.entry_id == Some(id),
        0 <= at < snapshot.entries@.len(),
        snapshot.entries@[at].id == id,
        forall|i: int| 0 <= i < at ==> (#[trigger] snapshot.entries@[i]).id != id,
    ensures
        file.refreshed(snapshot).path == snapshot.entries@[at].path,
        file.refreshed(snapshot).entry_id == file.entry_id,
{
    lemma_first_with_id(snapshot.entries@, id, at);
}

proof fn lemma_first_with_id(entries: Seq<Entry>, id: u64, at: int)
    requires
        0 <= at < entries.len(),
        entries[at].id == id,
        forall|i: int| 0 <= i < at ==> (#[trigger] entries[i]).id != id,
    ensures
        entry_with_id(entries, id) == Some(entries[at]),
    decreases entries.len(),
{
    if at > 0 {
        assert(entries[0].id != id);
        assert forall|i: int| 0 <= i < at - 1 implies (#[trigger] entries.skip(1)[i]).id != id by {
            assert(entries.skip(1)[i] == entries[i + 1]);
        }
        assert(entries.skip(1)[at - 1] == entries[at]);
        lemma_first_with_id(entries.skip(1), id, at - 1);
    }
}

proof fn lemma_entry_is_one_of(entries: Seq<Entry>, id: u64, path: Seq<char>)
    ensures
        entry_with_id(entries, id) matches Some(entry) ==> entry.id == id && entries.contains(entry),
        entry_at_path(entries, path) matches Some(entry) ==> entries.contains(entry),
        entry_with_id(entries, id) is None ==> forall|i: int|
            0 <= i < entries.len() ==> (#[trigger] entries[i]).id != id,
    decreases entries.len(),
{
    if entries.len() > 0 {
        let rest = entries.skip(1);
        lemma_entry_is_one_of(rest, id, path);
        assert(entries.contains(entries[0]));
        assert forall|entry: Entry| rest.contains(entry) implies entries.contains(entry) by {
            let i = choose|i: int| 0 <= i < rest.len() && rest[i] == entry;
            assert(entries[i + 1] == entry);
        }
        if entry_with_id(entries, id) is None {
            assert forall|i: int| 0 <= i < entries.len() implies (#[trigger] entries[i]).id
                != id by {
                if i > 0 {
                    assert(rest[i - 1] == entries[i]);
                }
            }
        }
    }
}

/// What a folder says of a file is news once: where it numbers its entries apart, hearing
/// it again changes nothing.
pub proof fn law_refreshing_twice(file: File, snapshot: WorktreeSnapshot)
    requires
        forall|i: int, j: int|
            0 <= i < j < snapshot.entries@.len() ==> (#[trigger] snapshot.entries@[i]).id != (
            #[trigger] snapshot.entries@[j]).id,
    ensures
        file.refreshed(snapshot).refreshed(snapshot).agrees_with(file.refreshed(snapshot)),
{
    let entries = snapshot.entries@;
    let once = file.refreshed(snapshot);
    match file.entry_in(entries) {
        Some(entry) => {
            lemma_entry_is_one_of(
                entries,
                match file.entry_id {
                    Some(id) => id,
                    None => 0,
                },
                file.path@,
            );
            lemma_entry_is_one_of(entries, entry.id, file.path@);
            let i = choose|i: int| 0 <= i < entries.len() && entries[i] == entry;
            let again = entry_with_id(entries, entry.id)->0;
            let j = choose|j: int| 0 <= j < entries.len() && entries[j] == again;
            if i < j {
                assert(entries[i].id != entries[j].id);
            } else if j < i {
                assert(entries[j].id != entries[i].id);
            }
            assert(once.entry_in(entries) == Some(entry));
        },
        None => {
            assert(once.entry_in(entries) is None);
        },
    }
}

/// Where `c` last stands in a text; -1, if it is not there.
pub open spec fn last_index(text: Seq<char>, c: char) -> int
    decreases text.len(),
{
    if text.len() == 0 {
        -1
    } else if text.last() == c {
        text.len() - 1
    } else {
        last_index(text.drop_last(), c)
    }
}

proof fn lemma_last_index(text: Seq<char>, c: char)
    ensures
        -1 <= last_index(text, c) < text.len(),
    decreases text.len(),
{
    if text.len() > 0 {
        lemma_last_index(text.drop_last(), c);
    }
}

/// The last component of a path.
pub open spec fn file_name(path: Seq<char>) -> Seq<char> {
    path.skip(last_index(path, '/') + 1)
}

/// The extension of a path: what follows the last dot of its last component, unless that
/// component starts with its only dot.
pub open spec fn extension_of(path: Seq<char>) -> Option<Seq<char>> {
    let name = file_name(path);
    let dot = last_index(name, '.');
    if dot <= 0 || name == ".."@ {
        None
    } else {
        Some(name.skip(dot + 1))
    }
}

/// The view of an optional text.
pub open spec fn text_of(text: Option<String>) -> Option<Seq<char>> {
    match text {
        Some(text) => Some(text@),
        None => None,
    }
}

/// Where what follows the last `c` of a text starts.
fn after_last(text: &str, c: char) -> (start: usize)
    ensures
        start == last_index(text@, c) + 1,
        start <= text@.len(),
{
    let len: usize = text.unicode_len();
    let mut end: usize = len;
    assert(text@.take(end as int) =~= text@);
    while end > 0
        invariant
            end <= len == text@.len(),
            last_index(text@, c) == last_index(text@.take(end as int), c),
        decreases end,
    {
        assert(text@.take(end as int).drop_last() =~= text@.take(end - 1));
        if text.get_char(end - 1) == c {
            return end;
        }
        end -= 1;
    }
    0
}

/// The extension of a path.
pub fn extension(path: &str) -> (extension: Option<String>)
    ensures
        text_of(extension) == extension_of(path@),
{
    let start: usize = after_last(path, '/');
    let len: usize = path.unicode_len();
    let name = path.substring_char(start, len);
    assert(name@ =~= file_name(path@));
    let after_dot: usize = after_last(name, '.');
    let parent = String::from_str("..");
    if after_dot <= 1 || String::from_str(name) == parent {
        return None;
    }
    let found = name.substring_char(after_dot, name.unicode_len());
    assert(found@ =~= name@.skip(last_index(name@, '.') + 1));
    Some(String::from_str(found))
}

/// The lowercase equivalent of a text, as Unicode has it.
pub uninterp spec fn lowercase(text: Seq<char>) -> Seq<char>;

/// The uppercase equivalent of a text, as Unicode has it.
pub uninterp spec fn uppercase(text: Seq<char>) -> Seq<char>;

/// The lowercase letter of a letter from `A` to `Z`, and any other character itself.
pub open spec fn ascii_lower(c: char) -> char {
    if 65 <= c as u32 <= 90 {
        (c as u32 + 32) as char
    } else {
        c
    }
}

/// The uppercase letter of a letter from `a` to `z`, and any other character itself.
pub open spec fn ascii_upper(c: char) -> char {
    if 97 <= c as u32 <= 122 {
        (c as u32 - 32) as char
    } else {
        c
    }
}

/// Whether a text is made of ASCII characters.
pub open spec fn ascii(text: Seq<char>) -> bool {
    forall|i: int| 0 <= i < text.len() ==> (#[trigger] text[i]) as u32 <= 127
}

/// The lowercase equivalent of a text, by `str::to_lowercase`. In a text of ASCII
/// characters it maps the letters from `A` to `Z`, and keeps what is not a letter of
/// them.
pub assume_specification[ str::to_lowercase ](text: &str) -> (lower: String)
    ensures
        lower@ == lowercase(text@),
        ascii(text@) ==> lower@ == text@.map_values(|c: char| ascii_lower(c)),
;

/// The uppercase equivalent of a text, by `str::to_uppercase`. In a text of ASCII
/// characters it maps the letters from `a` to `z`, and keeps what is not a letter of
/// them.
pub assume_specification[ str::to_uppercase ](text: &str) -> (upper: String)
    ensures
        upper@ == uppercase(text@),
        ascii(text@) ==> upper@ == text@.map_values(|c: char| ascii_upper(c)),
;

/// Whether a lowercase extension is that of an audio file.
pub open spec fn names_audio(extension: Seq<char>) -> bool {
    extension == "wav"@ || extension == "mp3"@ || extension == "flac"@ || extension == "ogg"@
}

/// Whether a lowercase extension is that of an audio file.
pub fn is_audio_extension(extension: &String) -> (audio: bool)
    ensures
        audio == names_audio(extension@),
{
    *extension == String::from_str("wav") || *extension == String::from_str("mp3") || *extension
        == String::from_str("flac") || *extension == String::from_str("ogg")
}

/// The folder that a path is in, as far as file types go: a folder that is itself a single
/// file is named like it.
#[derive(Debug)]
pub struct WorktreeRoot {
    /// The extension of the folder's own path.
    pub extension: Option<String>,
}

/// The extension that tells the type of the file at `path`.
pub open spec fn type_extension(path: Seq<char>, root: WorktreeRoot) -> Option<Seq<char>> {
    match extension_of(path) {
        Some(extension) => Some(extension),
        None => text_of(root.extension),
    }
}

/// Whether the file at `path` is an audio file, by its extension in either case. A path
/// whose folder is not open is no audio file.
pub fn is_audio_file(path: &ProjectPath, root: &Option<WorktreeRoot>) -> (audio: bool)
    ensures
        audio == match root {
            Some(root) => match type_extension(path.path@, *root) {
                Some(extension) => names_audio(lowercase(extension)),
                None => false,
            },
            None => false,
        },
        root matches Some(root) ==> (type_extension(path.path@, *root) matches Some(extension) ==> (
        ascii(extension) ==> audio == names_audio(
            extension.map_values(|c: char| ascii_lower(c)),
        ))),
{
    let root = match root {
        Some(root) => root,
        None => {
            return false;
        },
    };
    let found = extension(path.path.as_str());
    match (&found, &root.extension) {
        (Some(extension), _) => is_audio_extension(&extension.as_str().to_lowercase()),
        (None, Some(extension)) => is_audio_extension(&extension.as_str().to_lowercase()),
        (None, None) => false,
    }
}

/// A file is what the first entry with its number says, wherever that is; and where none has
/// its number, or it has none, what the first entry at its path says. The time and the size
/// of that entry tell the state on disk; without a time, the state stays what it was.
pub proof fn law_a_file_is_what_its_entry_says(file: File, snapshot: WorktreeSnapshot, at: int)
    requires
        0 <= at < snapshot.entries@.len(),
        file.entry_id == Some(snapshot.entries@[at].id) && (forall|i: int|
            0 <= i < at ==> (#[trigger] snapshot.entries@[i]).id != snapshot.entries@[at].id) || (
        snapshot.entries@[at].path@ == file.path@ && (forall|i: int|
            0 <= i < at ==> (#[trigger] snapshot.entries@[i]).path@ != file.path@) && (forall|
            i: int,
        |
            0 <= i < snapshot.entries@.len() ==> file.entry_id != Some(
                (#[trigger] snapshot.entries@[i]).id,
            ))),
    ensures
        ({
            let entry = snapshot.entries@[at];
            let now = file.refreshed(snapshot);
            &&& now.worktree == snapshot.worktree
            &&& now.path == entry.path
            &&& now.entry_id == Some(entry.id)
            &&& now.is_private == entry.is_private
            &&& now.is_local
            &&& entry.mtime matches Some(mtime) ==> now.disk_state == (DiskState::Present {
                mtime,
                size: entry.size,
            })
            &&& entry.mtime is None ==> now.disk_state == file.disk_state
        }),
{
    let entries = snapshot.entries@;
    if file.entry_id == Some(entries[at].id) && (forall|i: int|
        0 <= i < at ==> (#[trigger] entries[i]).id != entries[at].id) {
        lemma_first_with_id(entries, entries[at].id, at);
    } else {
        lemma_first_at_path(entries, file.path@, at);
        if let Some(id) = file.entry_id {
            lemma_entry_is_one_of(entries, id, file.path@);
            if let Some(entry) = entry_with_id(entries, id) {
                let i = choose|i: int| 0 <= i < entries.len() && entries[i] == entry;
                assert(file.entry_id != Some(entries[i].id));
            }
        }
    }
}

proof fn lemma_first_at_path(entries: Seq<Entry>, path: Seq<char>, at: int)
    requires
        0 <= at < entries.len(),
        entries[at].path@ == path,
        forall|i: int| 0 <= i < at ==> (#[trigger] entries[i]).path@ != path,
    ensures
        entry_at_path(entries, path) == Some(entries[at]),
    decreases entries.len(),
{
    if at > 0 {
        assert(entries[0].path@ != path);
        assert forall|i: int| 0 <= i < at - 1 implies (#[trigger] entries.skip(1)[i]).path@
            != path by {
            assert(entries.skip(1)[i] == entries[i + 1]);
        }
        assert(entries.skip(1)[at - 1] == entries[at]);
        lemma_first_at_path(entries.skip(1), path, at - 1);
    }
}

/// Two files say the same exactly where nothing that is known of them differs.
pub proof fn law_files_agree_in_everything(a: File, b: File)
    ensures
        a.agrees_with(b) ==> a.worktree == b.worktree && a.path@ == b.path@ && a.disk_state
            == b.disk_state && a.entry_id == b.entry_id && a.is_local == b.is_local
            && a.is_private == b.is_private,
        a == b ==> a.agrees_with(b),
        a.agrees_with((File { path: b.path, ..a })) <==> a.path@ == b.path@,
        a.agrees_with(b) ==> b.agrees_with(a) && a.place() == b.place(),
        a.place() == (a.worktree.id, a.path@),
{
}

/// A file is gone where it was deleted, now or in an earlier state.
pub proof fn law_deleted_files_are_gone(state: DiskState)
    ensures
        state.gone() <==> state == DiskState::Deleted || state == (DiskState::Historic {
            was_deleted: true,
        }),
{
}

/// What follows the last occurrence of a character in a text holds no other.
proof fn lemma_last_index_found(before: Seq<char>, c: char, after: Seq<char>)
    requires
        !after.contains(c),
    ensures
        last_index(before.push(c) + after, c) == before.len(),
    decreases after.len(),
{
    let text = before.push(c) + after;
    if after.len() > 0 {
        assert(after[after.len() - 1] == after.last());
        let shorter = after.drop_last();
        assert forall|i: int| 0 <= i < shorter.len() implies shorter[i] != c by {
            assert(shorter[i] == after[i]);
        }
        lemma_last_index_found(before, c, shorter);
        assert(text.drop_last() =~= before.push(c) + shorter);
    } else {
        assert(text =~= before.push(c));
        assert(text.last() == c);
    }
}

/// A character that a text does not hold stands nowhere in it.
proof fn lemma_last_index_absent(text: Seq<char>, c: char)
    requires
        !text.contains(c),
    ensures
        last_index(text, c) == -1,
    decreases text.len(),
{
    if text.len() > 0 {
        assert(text[text.len() - 1] == text.last());
        let shorter = text.drop_last();
        assert forall|i: int| 0 <= i < shorter.len() implies shorter[i] != c by {
            assert(shorter[i] == text[i]);
        }
        lemma_last_index_absent(shorter, c);
    }
}

/// The last component of a path that holds a slash, or of one that holds none.
proof fn lemma_file_name(folder: Seq<char>, name: Seq<char>)
    requires
        !name.contains('/'),
        folder.len() == 0 || folder.last() == '/',
    ensures
        file_name(folder + name) == name,
{
    let path = folder + name;
    if folder.len() == 0 {
        assert(path =~= name);
        lemma_last_index_absent(path, '/');
    } else {
        let before = folder.drop_last();
        assert(before.push('/') =~= folder);
        lemma_last_index_found(before, '/', name);
    }
    assert(path.skip(last_index(path, '/') + 1) =~= name);
}

/// The extension of a file is what follows the last dot of its name, in whatever folder it
/// is, as long as something stands before that dot.
pub proof fn law_extensions_follow_the_last_dot(
    folder: Seq<char>,
    stem: Seq<char>,
    extension: Seq<char>,
)
    requires
        folder.len() == 0 || folder.last() == '/',
        stem.len() > 0,
        !stem.contains('/'),
        !extension.contains('/'),
        !extension.contains('.'),
        !(stem == seq!['.'] && extension.len() == 0),
    ensures
        extension_of(folder + (stem.push('.') + extension)) == Some(extension),
{
    let name = stem.push('.') + extension;
    assert forall|i: int| 0 <= i < name.len() implies name[i] != '/' by {
        if i < stem.len() {
            assert(name[i] == stem[i]);
        } else if i > stem.len() {
            assert(name[i] == extension[i - stem.len() - 1]);
        }
    }
    lemma_file_name(folder, name);
    lemma_last_index_found(stem, '.', extension);
    assert(name.skip(stem.len() as int + 1) =~= extension);
    reveal_strlit("..");
    if name == ".."@ {
        assert(name.len() == 2);
        assert(name[0] == '.' && name[1] == '.');
        if stem.len() == 1 {
            assert(stem[0] == name[0]);
            assert(stem =~= seq!['.']);
        } else {
            assert(stem[0] == name[0]);
        }
    }
}

/// A name without a dot has no extension, nor has one that starts with its only dot.
pub proof fn law_names_without_extension(folder: Seq<char>, name: Seq<char>)
    requires
        folder.len() == 0 || folder.last() == '/',
        !name.contains('/'),
        !name.contains('.'),
    ensures
        extension_of(folder + name) is None,
        extension_of(folder + (seq!['.'] + name)) is None,
        extension_of(folder + seq!['.', '.']) is None,
{
    reveal_strlit("..");
    let parent = seq!['.', '.'];
    assert(parent =~= ".."@);
    lemma_file_name(folder, parent);
    lemma_file_name(folder, name);
    lemma_last_index_absent(name, '.');
    let hidden = seq!['.'] + name;
    assert forall|i: int| 0 <= i < hidden.len() implies hidden[i] != '/' by {
        if i > 0 {
            assert(hidden[i] == name[i - 1]);
        }
    }
    lemma_file_name(folder, hidden);
    assert(hidden =~= Seq::<char>::empty().push('.') + name);
    lemma_last_index_found(Seq::empty(), '.', name);
}

/// Four extensions are those of audio files, and no other is.
pub proof fn law_four_extensions_are_audio(extension: Seq<char>)
    ensures
        names_audio(extension) <==> extension == seq!['w', 'a', 'v'] || extension == seq![
            'm',
            'p',
            '3',
        ] || extension == seq!['f', 'l', 'a', 'c'] || extension == seq!['o', 'g', 'g'],
{
    reveal_strlit("wav");
    reveal_strlit("mp3");
    reveal_strlit("flac");
    reveal_strlit("ogg");
    assert("wav"@ =~= seq!['w', 'a', 'v']);
    assert("mp3"@ =~= seq!['m', 'p', '3']);
    assert("flac"@ =~= seq!['f', 'l', 'a', 'c']);
    assert("ogg"@ =~= seq!['o', 'g', 'g']);
}

/// A file that has an extension has its type by that, and else by the one of its folder.
pub proof fn law_types_go_by_the_path_first(path: Seq<char>, root: WorktreeRoot)
    ensures
        extension_of(path) is Some ==> type_extension(path, root) == extension_of(path),
        extension_of(path) is None ==> match root.extension {
            Some(extension) => type_extension(path, root) == Some(extension@),
            None => type_extension(path, root) is None,
        },
{
}

/// The letters of the two cases are told apart by 32 places, from `A` to `Z` and from `a` to
/// `z`; any other character has no case.
pub proof fn law_letters_have_two_cases(c: char)
    ensures
        'A' <= c <= 'Z' ==> ascii_lower(c) as u32 == c as u32 + 32,
        !('A' <= c <= 'Z') ==> ascii_lower(c) == c,
        'a' <= c <= 'z' ==> ascii_upper(c) as u32 == c as u32 - 32,
        !('a' <= c <= 'z') ==> ascii_upper(c) == c,
{
}

} // verus!
