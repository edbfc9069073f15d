//! Audio files are opened, shared, followed and closed.

use audio_viewer::error::StoreError;
use audio_viewer::file::{
    extension, is_audio_extension, is_audio_file, DiskState, Entry, File, ProjectPath, Worktree,
    WorktreeRoot, WorktreeSnapshot,
};
use audio_viewer::item::{AudioId, AudioItem, AudioItemEvent};
use audio_viewer::local::{EntryChange, LocalAudioStore};
use audio_viewer::remote::{
    Arrival, AudioChunk, AudioState, CreateAudioForPeer, RemoteAudioStore, RemoteFile,
};
use audio_viewer::store::{
    AudioStore, AudioStoreEvent, OpenRequest, Opening, ResolvedFile, StoreState,
};
use audio_viewer::table::Table;

const FOLDER: Worktree = Worktree { handle: 70, id: 7 };

fn path(text: &str) -> ProjectPath {
    ProjectPath { worktree_id: 7, path: text.to_string() }
}

fn file(text: &str, mtime: i128, entry_id: Option<u64>) -> File {
    File {
        worktree: FOLDER,
        path: text.to_string(),
        disk_state: DiskState::Present { mtime, size: 3 },
        entry_id,
        is_local: true,
        is_private: false,
    }
}

fn entry(id: u64, text: &str, mtime: Option<i128>) -> Entry {
    Entry { id, path: text.to_string(), mtime, size: 3, is_private: false }
}

fn snapshot(entries: Vec<Entry>) -> WorktreeSnapshot {
    WorktreeSnapshot { worktree: FOLDER, entries }
}

fn change(entry_id: u64, text: &str) -> Vec<EntryChange> {
    vec![EntryChange { path: text.to_string(), entry_id }]
}

fn id(number: u64) -> AudioId {
    match AudioId::from_proto(number) {
        Some(id) => id,
        None => panic!("zero is no number"),
    }
}

fn local(store: &AudioStore) -> &LocalAudioStore {
    match &store.state {
        StoreState::Local(local) => local,
        StoreState::Remote(_) => panic!("a local store"),
    }
}

fn remote(store: &AudioStore) -> &RemoteAudioStore {
    match &store.state {
        StoreState::Remote(remote) => remote,
        StoreState::Local(_) => panic!("a remote store"),
    }
}

fn opened(text: &str) -> AudioStore {
    let mut store = AudioStore::local();
    assert!(matches!(
        store.open_audio(path(text), Some(FOLDER), 1),
        Ok(Opening::Started(OpenRequest::ReadFile { .. }))
    ));
    assert_eq!(
        store.audio_loaded(100, file(text, 1, Some(5)), vec![1, 2, 3]),
        Ok(AudioStoreEvent::AudioAdded(100))
    );
    assert_eq!(store.load_finished(&path(text)), Some(1));
    store
}

#[test]
fn tables_hold_each_key_once() {
    let mut table: Table<u64, &str> = Table::new();
    assert_eq!(table.insert(1, "a"), None);
    assert_eq!(table.insert(2, "b"), None);
    assert_eq!(table.insert(1, "c"), Some("a"));
    assert_eq!(table.len(), 2);
    assert_eq!(table.get(&1), Some(&"c"));
    assert_eq!(table.get(&3), None);
    assert!(table.contains_key(&2));
    assert_eq!(table.remove(&2), Some("b"));
    assert_eq!(table.remove(&2), None);
    assert_eq!(*table.value_at(0), "c");
}

#[test]
fn audio_files_are_told_by_their_extension() {
    let open = Some(WorktreeRoot { extension: None });
    for name in ["a.wav", "b/C.MP3", "d.e/f.Flac", "g.tar.ogg", "h/i j.OGG"] {
        assert!(is_audio_file(&path(name), &open), "{name}");
    }
    for name in ["a.txt", "wav", ".wav", "b.wav/c", "a.", "a.wave", "", "..", "x/.."] {
        assert!(!is_audio_file(&path(name), &open), "{name}");
    }
    assert!(!is_audio_file(&path("a.wav"), &None));
    let single = Some(WorktreeRoot { extension: Some("FLAC".to_string()) });
    assert!(is_audio_file(&path(""), &single));
    assert!(!is_audio_file(&path("a.txt"), &single));
    assert!(is_audio_extension(&"ogg".to_string()));
    assert!(!is_audio_extension(&"OGG".to_string()));
    // The lowercase equivalent may have more characters.
    assert!(!is_audio_file(&path("a.\u{130}"), &open));
}

#[test]
fn extensions_follow_the_last_dot() {
    assert_eq!(extension("a/b.c.d").as_deref(), Some("d"));
    assert_eq!(extension("a.b/c"), None);
    assert_eq!(extension(".hidden"), None);
    assert_eq!(extension(".hidden.ä").as_deref(), Some("ä"));
    assert_eq!(extension("a.").as_deref(), Some(""));
    assert_eq!(extension(""), None);
    for name in ["a.b", "x/y.z", "x.y/z", "plain", ".a", "é.wav", "a..b", ".."] {
        let expected = std::path::Path::new(name)
            .extension()
            .and_then(|extension| extension.to_str());
        assert_eq!(extension(name).as_deref(), expected, "{name}");
    }
}

#[test]
fn zero_is_no_number_of_an_audio_file() {
    assert_eq!(AudioId::from_proto(0), None);
    assert_eq!(id(9).to_proto(), 9);
}

#[test]
fn deleted_files_are_gone() {
    assert!(DiskState::Deleted.is_deleted());
    assert!(DiskState::Historic { was_deleted: true }.is_deleted());
    assert!(!DiskState::Historic { was_deleted: false }.is_deleted());
    assert!(!DiskState::New.is_deleted());
    assert!(!DiskState::Present { mtime: 0, size: 0 }.is_deleted());
}

#[test]
fn an_open_file_is_shared() {
    let mut store = opened("a.wav");
    assert_eq!(store.get(id(1)), Some(100));
    assert_eq!(store.get(id(2)), None);
    assert_eq!(store.get_by_path(&path("a.wav")), Some(100));
    assert_eq!(store.get_by_path(&path("b.wav")), None);
    assert_eq!(store.audios(), vec![100]);
    assert!(matches!(store.open_audio(path("a.wav"), None, 2), Ok(Opening::Open(100))));
    assert_eq!(store.item(100).map(|item| item.bytes.to_vec()), Some(vec![1, 2, 3]));
    assert!(store.item(101).is_none());
    store.release(100);
    assert_eq!(store.get(id(1)), None);
    assert_eq!(store.audios(), vec![]);
    assert!(matches!(store.open_audio(path("a.wav"), Some(FOLDER), 2), Ok(Opening::Started(_))));
}

#[test]
fn a_file_is_loaded_once_at_a_time() {
    let mut store = AudioStore::local();
    assert!(matches!(
        store.open_audio(path("a.wav"), None, 1),
        Err(StoreError::NoSuchWorktree)
    ));
    let first = store.open_audio(path("a.wav"), Some(FOLDER), 1);
    assert!(matches!(
        first,
        Ok(Opening::Started(OpenRequest::ReadFile { worktree, ref path }))
            if worktree == FOLDER && path == "a.wav"
    ));
    assert!(matches!(
        store.open_audio(path("a.wav"), Some(FOLDER), 2),
        Ok(Opening::Joined(1))
    ));
    assert!(matches!(
        store.open_audio(path("b.wav"), Some(FOLDER), 3),
        Ok(Opening::Started(_))
    ));
    assert_eq!(store.load_finished(&path("a.wav")), Some(1));
    assert_eq!(store.load_finished(&path("a.wav")), None);
    assert!(matches!(
        store.open_audio(path("a.wav"), Some(FOLDER), 4),
        Ok(Opening::Started(_))
    ));
}

#[test]
fn numbers_are_given_out_in_order() {
    let mut store = AudioStore::local();
    assert!(store.audio_loaded(1, file("a.wav", 1, None), vec![]).is_ok());
    assert!(store.audio_loaded(2, file("b.wav", 1, None), vec![]).is_ok());
    assert_eq!(store.get(id(1)), Some(1));
    assert_eq!(store.get(id(2)), Some(2));
    if let StoreState::Local(local) = &mut store.state {
        local.next_audio_id = u64::MAX;
    }
    assert!(store.audio_loaded(3, file("c.wav", 1, None), vec![]).is_ok());
    assert_eq!(
        store.audio_loaded(4, file("d.wav", 1, None), vec![]),
        Err(StoreError::InvalidAudioId)
    );
    assert!(store.item(4).is_none());
}

#[test]
fn a_number_in_use_is_not_given_to_another() {
    let mut store = opened("a.wav");
    if let StoreState::Local(local) = &mut store.state {
        local.next_audio_id = 1;
    }
    assert_eq!(
        store.audio_loaded(200, file("b.wav", 1, None), vec![]),
        Err(StoreError::AlreadyExists)
    );
    assert!(store.item(200).is_none());
    assert_eq!(store.get(id(1)), None);
}

#[test]
fn a_renamed_file_is_followed() {
    let mut store = opened("a.wav");
    // Only what an audio file has told of itself is known.
    let updates = store.worktree_entries_changed(
        true,
        &change(5, "b.wav"),
        &snapshot(vec![entry(5, "b.wav", Some(1))]),
    );
    assert!(updates.is_empty());
    store.on_audio_event(100, AudioItemEvent::Reloaded);
    assert!(local(&store).local_audio_ids_by_path.get(&path("a.wav")).is_none());
    store.on_audio_event(100, AudioItemEvent::FileHandleChanged);
    assert_eq!(local(&store).local_audio_ids_by_path.get(&path("a.wav")), Some(&id(1)));
    assert_eq!(local(&store).local_audio_ids_by_entry_id.get(&5), Some(&id(1)));

    let updates = store.worktree_entries_changed(
        true,
        &change(5, "b.wav"),
        &snapshot(vec![entry(5, "b.wav", Some(1))]),
    );
    assert_eq!(updates.len(), 1);
    assert_eq!(updates[0].handle, 100);
    assert!(updates[0].update.reload.is_none());
    assert_eq!(updates[0].update.events, vec![AudioItemEvent::FileHandleChanged]);
    assert_eq!(store.get_by_path(&path("b.wav")), Some(100));
    assert_eq!(store.get_by_path(&path("a.wav")), None);
    assert!(local(&store).local_audio_ids_by_path.get(&path("a.wav")).is_none());
    assert_eq!(local(&store).local_audio_ids_by_path.get(&path("b.wav")), Some(&id(1)));
}

#[test]
fn a_changed_file_is_read_again() {
    let mut store = opened("a.wav");
    store.on_audio_event(100, AudioItemEvent::FileHandleChanged);
    let updates = store.worktree_entries_changed(
        true,
        &change(5, "a.wav"),
        &snapshot(vec![entry(5, "a.wav", Some(2))]),
    );
    assert_eq!(
        updates[0].update.events,
        vec![AudioItemEvent::ReloadNeeded, AudioItemEvent::FileHandleChanged]
    );
    let reload = match &updates[0].update.reload {
        Some(reload) => reload,
        None => panic!("a reload"),
    };
    assert_eq!(reload.number, 1);
    assert_eq!(reload.path.path, "a.wav");
    assert_eq!(store.reload_finished(100, 2, Some(vec![9])), None);
    assert_eq!(
        store.reload_finished(100, 1, Some(vec![9])),
        Some(AudioItemEvent::Reloaded)
    );
    assert_eq!(store.item(100).map(|item| item.bytes.to_vec()), Some(vec![9]));
    assert_eq!(store.reload_finished(100, 1, Some(vec![8])), None);
    assert_eq!(store.item(100).map(|item| item.last_reload), Some(1));
    assert_eq!(store.reload_finished(200, 1, None), None);
    // The same news again is no news.
    let updates = store.worktree_entries_changed(
        true,
        &change(5, "a.wav"),
        &snapshot(vec![entry(5, "a.wav", Some(2))]),
    );
    assert!(updates.is_empty());
}

#[test]
fn a_file_that_moved_and_changed_is_read_from_where_it_was() {
    let mut store = opened("a.wav");
    store.on_audio_event(100, AudioItemEvent::FileHandleChanged);
    let updates = store.worktree_entries_changed(
        true,
        &change(5, "b.wav"),
        &snapshot(vec![entry(5, "b.wav", Some(2))]),
    );
    assert_eq!(
        updates[0].update.reload.as_ref().map(|reload| reload.path.path.clone()),
        Some("a.wav".to_string())
    );
}

#[test]
fn a_deleted_file_keeps_its_contents() {
    let mut store = opened("a.wav");
    store.on_audio_event(100, AudioItemEvent::FileHandleChanged);
    let updates =
        store.worktree_entries_changed(true, &change(5, "a.wav"), &snapshot(vec![]));
    assert_eq!(updates[0].update.events, vec![AudioItemEvent::FileHandleChanged]);
    assert!(updates[0].update.reload.is_none());
    let item = store.item(100);
    assert_eq!(item.map(|item| item.file.disk_state), Some(DiskState::Deleted));
    assert_eq!(item.map(|item| item.bytes.to_vec()), Some(vec![1, 2, 3]));
    assert_eq!(item.and_then(|item| item.file.entry_id), Some(5));
}

#[test]
fn a_replaced_file_is_found_at_its_path() {
    let mut store = opened("a.wav");
    store.on_audio_event(100, AudioItemEvent::FileHandleChanged);
    let updates = store.worktree_entries_changed(
        true,
        &change(9, "a.wav"),
        &snapshot(vec![entry(9, "a.wav", None)]),
    );
    // An entry without a time says nothing of the state on disk.
    assert_eq!(updates[0].update.events, vec![]);
    assert!(local(&store).local_audio_ids_by_entry_id.get(&5).is_none());
    assert_eq!(local(&store).local_audio_ids_by_entry_id.get(&9), Some(&id(1)));
    assert_eq!(
        store.item(100).map(|item| item.file.disk_state),
        Some(DiskState::Present { mtime: 1, size: 3 })
    );
}

#[test]
fn only_local_folders_count() {
    let mut store = opened("a.wav");
    store.on_audio_event(100, AudioItemEvent::FileHandleChanged);
    let gone = snapshot(vec![]);
    assert!(store.worktree_entries_changed(false, &change(5, "a.wav"), &gone).is_empty());
    let elsewhere =
        WorktreeSnapshot { worktree: Worktree { handle: 71, id: 7 }, entries: vec![] };
    assert!(store.worktree_entries_changed(true, &change(5, "a.wav"), &elsewhere).is_empty());
    let mut far = AudioStore::remote(1);
    assert!(far.worktree_entries_changed(true, &change(5, "a.wav"), &gone).is_empty());
}

#[test]
fn what_is_no_longer_in_use_is_forgotten() {
    let mut store = opened("a.wav");
    store.on_audio_event(100, AudioItemEvent::FileHandleChanged);
    store.release(100);
    store.on_audio_event(100, AudioItemEvent::FileHandleChanged);
    let here = snapshot(vec![entry(5, "a.wav", Some(2))]);
    assert!(store.worktree_entries_changed(true, &change(5, "a.wav"), &here).is_empty());
    assert!(store.opened_audios.get(&id(1)).is_none());
    assert!(local(&store).local_audio_ids_by_path.get(&path("a.wav")).is_none());
    assert!(local(&store).local_audio_ids_by_entry_id.get(&5).is_none());
}

#[test]
fn an_entry_stands_for_one_audio_file() {
    let mut books = LocalAudioStore::new();
    let first = AudioItem::new(id(1), file("a.wav", 1, Some(5)), vec![]);
    let second = AudioItem::new(id(2), file("b.wav", 1, Some(5)), vec![]);
    let third = AudioItem::new(id(3), file("c.wav", 1, None), vec![]);
    assert!(books.audio_changed_file(&first));
    assert!(!books.audio_changed_file(&second));
    assert!(books.audio_changed_file(&third));
    assert_eq!(books.local_audio_ids_by_entry_id.get(&5), Some(&id(1)));
    assert!(books.local_audio_ids_by_path.get(&path("b.wav")).is_none());
    assert_eq!(books.local_audio_ids_by_path.get(&path("c.wav")), Some(&id(3)));
}

#[test]
fn files_on_this_machine_are_reloaded() {
    let mut store = opened("a.wav");
    let reloads = match store.reload_audios(&vec![100, 300]) {
        Ok(reloads) => reloads,
        Err(error) => panic!("{}", error.message()),
    };
    assert_eq!(reloads.len(), 1);
    assert_eq!(reloads[0].handle, 100);
    assert_eq!(reloads[0].reload.number, 1);
    let mut far = AudioStore::remote(1);
    match far.reload_audios(&vec![]) {
        Ok(_) => panic!("a remote store"),
        Err(error) => assert_eq!(
            error.message(),
            "Reloading audio from remote is not supported"
        ),
    }
}

#[test]
fn a_file_elsewhere_has_no_place_here() {
    let mut item = AudioItem::new(id(1), file("a.wav", 1, None), vec![]);
    assert_eq!(item.abs_path("/x/a.wav".to_string()), Some("/x/a.wav".to_string()));
    assert_eq!(item.project_path().path, "a.wav");
    item.file.is_local = false;
    assert_eq!(item.abs_path("/x/a.wav".to_string()), None);
    assert!(item.reload().is_none());
    let update = item.file_updated(file("a.wav", 2, None));
    assert!(update.reload.is_none());
    assert_eq!(
        update.events,
        vec![AudioItemEvent::ReloadNeeded, AudioItemEvent::FileHandleChanged]
    );
}

#[test]
fn only_the_last_reload_counts() {
    let mut item = AudioItem::new(id(1), file("a.wav", 1, None), vec![0]);
    let first = item.reload().map(|reload| reload.number);
    let second = item.reload().map(|reload| reload.number);
    assert_eq!((first, second), (Some(1), Some(2)));
    assert_eq!(item.reload_finished(1, Some(vec![1])), None);
    assert_eq!(item.bytes.to_vec(), vec![0]);
    assert_eq!(item.reload_finished(2, None), None);
    assert_eq!(item.bytes.to_vec(), vec![0]);
    assert_eq!(item.reload_finished(2, Some(vec![2])), None);
}

fn state(id: u64, content_size: u64) -> CreateAudioForPeer {
    CreateAudioForPeer::State(AudioState {
        id,
        file: Some(RemoteFile { worktree_id: 7, description: vec![42] }),
        content_size,
    })
}

fn chunk(audio_id: u64, data: &[u8]) -> CreateAudioForPeer {
    CreateAudioForPeer::Chunk(AudioChunk { audio_id, data: data.to_vec() })
}

fn arrival(reply: Result<Option<Arrival>, StoreError>) -> Arrival {
    match reply {
        Ok(Some(arrival)) => arrival,
        Ok(None) => panic!("nothing arrived"),
        Err(error) => panic!("{}", error.message()),
    }
}

#[test]
fn chunks_make_the_whole() {
    let content = (0..100u8).collect::<Vec<_>>();
    for size in [1, 7, 33, 100] {
        let mut store = AudioStore::remote(1);
        assert!(matches!(store.handle_create_audio_for_peer(state(3, 100)), Ok(None)));
        let mut arrived = None;
        for part in content.chunks(size) {
            assert!(arrived.is_none());
            match store.handle_create_audio_for_peer(chunk(3, part)) {
                Ok(reply) => arrived = reply,
                Err(error) => panic!("{}", error.message()),
            }
        }
        let arrived = arrival(Ok(arrived));
        assert_eq!(arrived.audio_id, id(3));
        assert_eq!(arrived.content, content);
        assert_eq!(arrived.file.description, vec![42]);
        assert!(matches!(
            store.handle_create_audio_for_peer(chunk(3, &[1])),
            Err(StoreError::UnknownAudio)
        ));
    }
}

#[test]
fn audio_files_arrive_apart() {
    let mut store = AudioStore::remote(1);
    assert!(store.handle_create_audio_for_peer(state(1, 2)).is_ok());
    assert!(store.handle_create_audio_for_peer(state(2, 1)).is_ok());
    assert!(matches!(store.handle_create_audio_for_peer(chunk(1, &[10])), Ok(None)));
    let second = arrival(store.handle_create_audio_for_peer(chunk(2, &[20])));
    assert_eq!(second.content, vec![20]);
    let first = arrival(store.handle_create_audio_for_peer(chunk(1, &[11])));
    assert_eq!(first.content, vec![10, 11]);
    // Announcing a file again starts it afresh.
    assert!(store.handle_create_audio_for_peer(state(4, 2)).is_ok());
    assert!(matches!(store.handle_create_audio_for_peer(chunk(4, &[1])), Ok(None)));
    assert!(store.handle_create_audio_for_peer(state(4, 1)).is_ok());
    assert_eq!(arrival(store.handle_create_audio_for_peer(chunk(4, &[2]))).content, vec![2]);
    // A file without contents arrives with an empty chunk.
    assert!(matches!(store.handle_create_audio_for_peer(state(5, 0)), Ok(None)));
    assert!(arrival(store.handle_create_audio_for_peer(chunk(5, &[]))).content.is_empty());
    // What comes beyond the announced size never arrives.
    assert!(store.handle_create_audio_for_peer(state(6, 1)).is_ok());
    assert!(matches!(store.handle_create_audio_for_peer(chunk(6, &[1, 2])), Ok(None)));
}

#[test]
fn messages_that_make_no_sense_are_refused() {
    let mut store = AudioStore::remote(1);
    assert!(matches!(
        store.handle_create_audio_for_peer(state(0, 1)),
        Err(StoreError::InvalidAudioId)
    ));
    assert!(matches!(
        store.handle_create_audio_for_peer(chunk(0, &[1])),
        Err(StoreError::InvalidAudioId)
    ));
    assert!(matches!(
        store.handle_create_audio_for_peer(chunk(9, &[1])),
        Err(StoreError::UnknownAudio)
    ));
    assert!(matches!(
        store.handle_create_audio_for_peer(CreateAudioForPeer::Unknown),
        Ok(None)
    ));
    let nameless =
        CreateAudioForPeer::State(AudioState { id: 2, file: None, content_size: 1 });
    assert!(matches!(store.handle_create_audio_for_peer(nameless), Ok(None)));
    assert!(matches!(
        store.handle_create_audio_for_peer(chunk(2, &[1])),
        Err(StoreError::MissingFile)
    ));
    assert!(matches!(
        store.handle_create_audio_for_peer(chunk(2, &[1])),
        Err(StoreError::UnknownAudio)
    ));
    let mut here = AudioStore::local();
    assert!(matches!(here.handle_create_audio_for_peer(state(0, 1)), Ok(None)));
}

#[test]
fn the_host_is_asked_for_its_files() {
    let mut store = AudioStore::remote(12);
    let opening = store.open_audio(path("a.wav"), Some(FOLDER), 1);
    assert!(matches!(
        opening,
        Ok(Opening::Started(OpenRequest::AskHost { project_id: 12, worktree_id: 7, ref path }))
            if path == "a.wav"
    ));
    assert!(matches!(store.audio_opened(0, 50), Err(StoreError::InvalidResponse)));
    assert!(matches!(store.audio_opened(3, 50), Ok(None)));
    assert!(matches!(store.audio_opened(3, 51), Ok(None)));
    let mut mine = file("a.wav", 1, None);
    mine.is_local = false;
    let arrived = store.audio_arrived(100, id(3), vec![1], ResolvedFile::Found(mine));
    assert_eq!(arrived.listeners, vec![50, 51]);
    assert_eq!(arrived.added, Ok(AudioStoreEvent::AudioAdded(100)));
    assert_eq!(store.get(id(3)), Some(100));
    assert_eq!(store.get_by_path(&path("a.wav")), Some(100));
    // It is kept for who asks next, once.
    assert!(matches!(store.audio_opened(3, 52), Ok(Some(100))));
    assert!(matches!(store.audio_opened(3, 53), Ok(None)));
    assert_eq!(remote(&store).project_id, 12);
}

#[test]
fn arrivals_without_a_place_are_refused() {
    let mut store = AudioStore::remote(1);
    let nowhere = store.audio_arrived(1, id(1), vec![], ResolvedFile::NoWorktree);
    assert_eq!(nowhere.added, Err(StoreError::WorktreeNotFound));
    let broken = store.audio_arrived(1, id(1), vec![], ResolvedFile::Invalid);
    assert_eq!(broken.added, Err(StoreError::InvalidFile));
    assert!(store.item(1).is_none());
    let first = store.audio_arrived(1, id(1), vec![1], ResolvedFile::Found(file("a", 1, None)));
    assert!(first.added.is_ok());
    let second = store.audio_arrived(2, id(1), vec![2], ResolvedFile::Found(file("a", 1, None)));
    assert_eq!(second.added, Err(StoreError::AlreadyExists));
    // The number then stands for the new one.
    assert_eq!(store.get(id(1)), Some(2));
    assert!(matches!(store.audio_opened(1, 9), Ok(Some(2))));
}

#[test]
fn errors_have_their_texts() {
    let texts = [
        (StoreError::NoSuchWorktree, "no such worktree"),
        (StoreError::InvalidAudioId, "invalid audio id"),
        (StoreError::InvalidResponse, "invalid audio_id in response"),
        (StoreError::UnknownAudio, "received chunk for unknown audio"),
        (StoreError::MissingFile, "missing file in audio state"),
        (StoreError::WorktreeNotFound, "worktree not found"),
        (StoreError::InvalidFile, "invalid file in audio state"),
        (StoreError::AlreadyExists, "Audio already exists"),
        (StoreError::RemoteReload, "Reloading audio from remote is not supported"),
    ];
    for (error, text) in texts {
        assert_eq!(error.message(), text);
    }
}
