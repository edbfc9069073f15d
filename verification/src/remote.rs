//! The books of a store whose files are on another machine: audio files arrive from there
//! in chunks.

use vstd::map::*;
use vstd::prelude::*;

use crate::error::StoreError;
use crate::item::AudioId;
use crate::table::Table;

verus! {

/// A file on another machine, as it was described from there.
#[derive(Debug)]
pub struct RemoteFile {
    pub worktree_id: u64,
    /// The description, encoded.
    pub description: Vec<u8>,
}

/// The announcement of an audio file.
#[derive(Debug)]
pub struct AudioState {
    pub id: u64,
    pub file: Option<RemoteFile>,
    /// How many bytes will follow.
    pub content_size: u64,
}

/// A part of the contents of an audio file.
#[derive(Debug)]
pub struct AudioChunk {
    pub audio_id: u64,
    pub data: Vec<u8>,
}

/// What a message from the other machine holds.
#[derive(Debug)]
pub enum CreateAudioForPeer {
    State(AudioState),
    Chunk(AudioChunk),
    /// Nothing that is understood here.
    Unknown,
}

/// An audio file that has arrived whole.
#[derive(Debug)]
pub struct Arrival {
    pub audio_id: AudioId,
    pub content: Vec<u8>,
    pub file: RemoteFile,
}

/// The chunks one after the other.
pub open spec fn concatenated(chunks: Seq<Vec<u8>>) -> Seq<u8>
    decreases chunks.len(),
{
    if chunks.len() == 0 {
        Seq::empty()
    } else {
        concatenated(chunks.drop_last()) + chunks.last()@
    }
}

/// An audio file that has been announced, and what has arrived of it.
pub struct Pending {
    pub state: AudioState,
    pub received: Seq<u8>,
}

/// An audio file that is arriving.
#[derive(Debug)]
pub struct LoadingRemoteAudio {
    state: AudioState,
    chunks: Vec<Vec<u8>>,
    received_size: u128,
}

impl LoadingRemoteAudio {
    #[verifier::type_invariant]
    spec fn counts_what_arrived(self) -> bool {
        &&& self.received_size == concatenated(self.chunks@).len()
        &&& self.received_size <= self.chunks@.len() * usize::MAX
    }

    /// What was announced, and what has arrived of it.
    pub closed spec fn pending(self) -> Pending {
        Pending { state: self.state, received: concatenated(self.chunks@) }
    }

    /// An audio file of which nothing has arrived.
    pub fn new(state: AudioState) -> (loading: LoadingRemoteAudio)
        ensures
            loading.pending() == (Pending { state, received: Seq::empty() }),
    {
        LoadingRemoteAudio { state, chunks: Vec::new(), received_size: 0 }
    }

    /// The audio file once another chunk has arrived.
    pub fn with(self, data: Vec<u8>) -> (loading: LoadingRemoteAudio)
        ensures
            loading.pending() == (Pending {
                received: self.pending().received + data@,
                ..self.pending()
            }),
    {
        proof {
            use_type_invariant(&self);
        }
        let ghost before = self.chunks@;
        let LoadingRemoteAudio { state, mut chunks, received_size } = self;
        let more: usize = data.len();
        chunks.push(data);
        let count: usize = chunks.len();
        proof {
            assert(chunks@.drop_last() =~= before);
            let n = before.len() as int;
            let max = usize::MAX as int;
            assert(n + 1 == count <= max);
            assert(n * max + max == (n + 1) * max) by (nonlinear_arith);
            assert((n + 1) * max <= max * max) by (nonlinear_arith)
                requires
                    n + 1 <= max,
                    max >= 0,
            ;
            assert(max * max <= u128::MAX) by (nonlinear_arith)
                requires
                    0 <= max <= 0xffff_ffff_ffff_ffff,
            ;
        }
        let received_size: u128 = received_size + more as u128;
        LoadingRemoteAudio { state, chunks, received_size }
    }

    /// Whether everything that was announced has arrived.
    pub fn is_complete(&self) -> (complete: bool)
        ensures
            complete == (self.pending().received.len() == self.pending().state.content_size),
    {
        proof {
            use_type_invariant(self);
        }
        self.received_size == self.state.content_size as u128
    }

    /// What was announced, and what has arrived of it in one piece.
    pub fn into_content(self) -> (parts: (AudioState, Vec<u8>))
        ensures
            self.pending() == (Pending { state: parts.0, received: parts.1@ }),
    {
        let LoadingRemoteAudio { state, chunks, received_size: _ } = self;
        let mut content: Vec<u8> = Vec::new();
        let mut i: usize = 0;
        while i < chunks.len()
            invariant
                i <= chunks@.len(),
                content@ == concatenated(chunks@.take(i as int)),
            decreases chunks@.len() - i,
        {
            assert(chunks@.take(i + 1).drop_last() =~= chunks@.take(i as int));
            content.extend_from_slice(chunks[i].as_slice());
            assert(content@ =~= concatenated(chunks@.take(i + 1)));
            i += 1;
        }
        assert(chunks@.take(i as int) =~= chunks@);
        (state, content)
    }
}

/// What is arriving once a message has come.
pub open spec fn after_message(
    pending: Map<u64, Pending>,
    message: CreateAudioForPeer,
) -> Map<u64, Pending> {
    match message {
        CreateAudioForPeer::State(state) => if state.id == 0 {
            pending
        } else {
            pending.insert(state.id, Pending { state, received: Seq::empty() })
        },
        CreateAudioForPeer::Chunk(chunk) => if chunk.audio_id == 0 || !pending.contains_key(
            chunk.audio_id,
        ) {
            pending
        } else {
            let before = pending[chunk.audio_id];
            let now = Pending { received: before.received + chunk.data@, ..before };
            if now.received.len() == now.state.content_size {
                pending.remove(chunk.audio_id)
            } else {
                pending.insert(chunk.audio_id, now)
            }
        },
        CreateAudioForPeer::Unknown => pending,
    }
}

/// Whether `reply` is what a message that comes leads to: an audio file that is complete
/// with it, nothing yet, or an error.
pub open spec fn replied(
    pending: Map<u64, Pending>,
    message: CreateAudioForPeer,
    reply: Result<Option<Arrival>, StoreError>,
) -> bool {
    match message {
        CreateAudioForPeer::State(state) => if state.id == 0 {
            reply == Err::<Option<Arrival>, _>(StoreError::InvalidAudioId)
        } else {
            reply == Ok::<_, StoreError>(None::<Arrival>)
        },
        CreateAudioForPeer::Chunk(chunk) => if chunk.audio_id == 0 {
            reply == Err::<Option<Arrival>, _>(StoreError::InvalidAudioId)
        } else if !pending.contains_key(chunk.audio_id) {
            reply == Err::<Option<Arrival>, _>(StoreError::UnknownAudio)
        } else {
            let state = pending[chunk.audio_id].state;
            let received = pending[chunk.audio_id].received + chunk.data@;
            if received.len() != state.content_size {
                reply == Ok::<_, StoreError>(None::<Arrival>)
            } else {
                match state.file {
                    Some(file) => {
                        &&& reply matches Ok(Some(arrival))
                        &&& arrival.audio_id@ == chunk.audio_id
                        &&& arrival.content@ == received
                        &&& arrival.file == file
                    },
                    None => reply == Err::<Option<Arrival>, _>(StoreError::MissingFile),
                }
            }
        },
        CreateAudioForPeer::Unknown => reply == Ok::<_, StoreError>(None::<Arrival>),
    }
}

/// The books of a store whose files are on another machine.
#[derive(Debug)]
pub struct RemoteAudioStore {
    pub project_id: u64,
    pub loading_remote_audios_by_id: Table<AudioId, LoadingRemoteAudio>,
    /// Who waits for audio files that have not arrived.
    pub remote_audio_listeners: Table<AudioId, Vec<u64>>,
    /// Audio files that have arrived and were not yet asked for.
    pub loaded_audios: Table<AudioId, u64>,
}

impl RemoteAudioStore {
    /// What is arriving.
    pub open spec fn pending(self) -> Map<u64, Pending> {
        self.loading_remote_audios_by_id@.map_values(|loading: LoadingRemoteAudio| loading.pending())
    }

    /// Who waits for an audio file.
    pub open spec fn waiting(self, audio: u64) -> Seq<u64> {
        if self.remote_audio_listeners@.contains_key(audio) {
            self.remote_audio_listeners@[audio]@
        } else {
            Seq::empty()
        }
    }

    /// Whether asking for an audio file led from `before` to these books: it was handed
    /// out, or is waited for.
    pub open spec fn asked(
        self,
        before: RemoteAudioStore,
        audio: u64,
        listener: u64,
        handle: Option<u64>,
    ) -> bool {
        &&& self.project_id == before.project_id
        &&& self.loading_remote_audios_by_id == before.loading_remote_audios_by_id
        &&& self.loaded_audios@ == before.loaded_audios@.remove(audio)
        &&& match handle {
            Some(handle) => before.loaded_audios@.contains_pair(audio, handle)
                && self.remote_audio_listeners == before.remote_audio_listeners,
            None => !before.loaded_audios@.contains_key(audio) && forall|other: u64| #[trigger]
                self.waiting(other) == if other == audio {
                    before.waiting(other).push(listener)
                } else {
                    before.waiting(other)
                },
        }
    }

    /// Whether an audio file that is complete led from `before` to these books: it is handed
    /// to those who wait for it, and kept for who asks next.
    pub open spec fn delivered(
        self,
        before: RemoteAudioStore,
        audio: u64,
        handle: u64,
        listeners: Seq<u64>,
    ) -> bool {
        &&& self.project_id == before.project_id
        &&& self.loading_remote_audios_by_id == before.loading_remote_audios_by_id
        &&& self.loaded_audios@ == before.loaded_audios@.insert(audio, handle)
        &&& self.remote_audio_listeners@ == before.remote_audio_listeners@.remove(audio)
        &&& listeners == before.waiting(audio)
    }

    /// Empty books.
    pub fn new(project_id: u64) -> (store: RemoteAudioStore)
        ensures
            store.project_id == project_id,
            store.pending() == Map::<u64, Pending>::empty(),
            store.remote_audio_listeners@ == Map::<u64, Vec<u64>>::empty(),
            store.loaded_audios@ == Map::<u64, u64>::empty(),
    {
        let store = RemoteAudioStore {
            project_id,
            loading_remote_audios_by_id: Table::new(),
            remote_audio_listeners: Table::new(),
            loaded_audios: Table::new(),
        };
        assert(store.pending() =~= Map::<u64, Pending>::empty());
        store
    }

    /// Hands out an audio file that has arrived. One that has not is waited for.
    pub fn wait_for_remote_audio(&mut self, id: AudioId, listener: u64) -> (handle: Option<u64>)
        ensures
            final(self).asked(*old(self), id@, listener, handle),
    {
        if let Some(handle) = self.loaded_audios.remove(&id) {
            return Some(handle);
        }
        let mut listeners: Vec<u64> = match self.remote_audio_listeners.remove(&id) {
            Some(listeners) => listeners,
            None => Vec::new(),
        };
        assert(listeners@ =~= old(self).waiting(id@));
        listeners.push(listener);
        self.remote_audio_listeners.insert(id, listeners);
        None
    }

    /// Hands an audio file that is complete to those who wait for it, and keeps it for who
    /// asks next.
    pub fn deliver(&mut self, audio_id: AudioId, handle: u64) -> (listeners: Vec<u64>)
        ensures
            final(self).delivered(*old(self), audio_id@, handle, listeners@),
    {
        self.loaded_audios.insert(audio_id, handle);
        match self.remote_audio_listeners.remove(&audio_id) {
            Some(listeners) => listeners,
            None => Vec::new(),
        }
    }

    /// Takes what a message from the other machine brings.
    pub fn handle_create_audio_for_peer(&mut self, message: CreateAudioForPeer) -> (reply: Result<
        Option<Arrival>,
        StoreError,
    >)
        ensures
            final(self).pending() == after_message(old(self).pending(), message),
            replied(old(self).pending(), message, reply),
            final(self).project_id == old(self).project_id,
            final(self).remote_audio_listeners == old(self).remote_audio_listeners,
            final(self).loaded_audios == old(self).loaded_audios,
    {
        match message {
            CreateAudioForPeer::State(state) => {
                let audio_id = match AudioId::from_proto(state.id) {
                    Some(audio_id) => audio_id,
                    None => {
                        return Err(StoreError::InvalidAudioId);
                    },
                };
                self.loading_remote_audios_by_id.insert(audio_id, LoadingRemoteAudio::new(state));
                assert(self.pending() =~= after_message(old(self).pending(), message));
                Ok(None)
            },
            CreateAudioForPeer::Chunk(chunk) => {
                let audio_id = match AudioId::from_proto(chunk.audio_id) {
                    Some(audio_id) => audio_id,
                    None => {
                        return Err(StoreError::InvalidAudioId);
                    },
                };
                let loading = match self.loading_remote_audios_by_id.remove(&audio_id) {
                    Some(loading) => loading.with(chunk.data),
                    None => {
                        assert(self.pending() =~= old(self).pending());
                        return Err(StoreError::UnknownAudio);
                    },
                };
                if loading.is_complete() {
                    assert(self.pending() =~= after_message(old(self).pending(), message));
                    let (state, content) = loading.into_content();
                    match state.file {
                        Some(file) => Ok(Some(Arrival { audio_id, content, file })),
                        None => Err(StoreError::MissingFile),
                    }
                } else {
                    self.loading_remote_audios_by_id.insert(audio_id, loading);
                    assert(self.pending() =~= after_message(old(self).pending(), message));
                    Ok(None)
                }
            },
            CreateAudioForPeer::Unknown => Ok(None),
        }
    }

    /// Takes the other machine's answer to the request for an audio file: hands it out, or
    /// waits for it.
    pub fn audio_opened(&mut self, number: u64, listener: u64) -> (handle: Result<
        Option<u64>,
        StoreError,
    >)
        ensures
            number == 0 ==> handle == Err::<Option<u64>, _>(StoreError::InvalidResponse)
                && *final(self) == *old(self),
            number != 0 ==> handle is Ok && final(self).asked(
                *old(self),
                number,
                listener,
                handle->Ok_0,
            ),
    {
        match AudioId::from_proto(number) {
            Some(audio_id) => Ok(self.wait_for_remote_audio(audio_id, listener)),
            None => Err(StoreError::InvalidResponse),
        }
    }
}

/// The message that brings a chunk.
pub open spec fn bringing(audio_id: u64, data: Vec<u8>) -> CreateAudioForPeer {
    CreateAudioForPeer::Chunk(AudioChunk { audio_id, data })
}

/// What is arriving once these chunks of an audio file have come.
pub open spec fn after_chunks(
    pending: Map<u64, Pending>,
    audio_id: u64,
    chunks: Seq<Vec<u8>>,
) -> Map<u64, Pending>
    decreases chunks.len(),
{
    if chunks.len() == 0 {
        pending
    } else {
        after_message(
            after_chunks(pending, audio_id, chunks.drop_last()),
            bringing(audio_id, chunks.last()),
        )
    }
}

/// Whether a chunk completes an audio file of `size` bytes, and it is the last.
pub open spec fn completes_last(chunks: Seq<Vec<u8>>, size: u64) -> bool {
    &&& chunks.len() > 0
    &&& concatenated(chunks).len() == size
    &&& forall|k: int|
        0 < k < chunks.len() ==> #[trigger] concatenated(chunks.take(k)).len() != size
}

proof fn lemma_chunks_pile_up(
    pending: Map<u64, Pending>,
    state: AudioState,
    chunks: Seq<Vec<u8>>,
    k: int,
)
    requires
        state.id != 0,
        completes_last(chunks, state.content_size),
        0 <= k < chunks.len(),
        pending.contains_pair(state.id, (Pending { state, received: Seq::empty() })),
    ensures
        after_chunks(pending, state.id, chunks.take(k)).contains_pair(
            state.id,
            (Pending { state, received: concatenated(chunks.take(k)) }),
        ),
    decreases k,
{
    if k > 0 {
        lemma_chunks_pile_up(pending, state, chunks, k - 1);
        assert(chunks.take(k).drop_last() =~= chunks.take(k - 1));
        assert(concatenated(chunks.take(k)).len() != state.content_size);
    } else {
        assert(chunks.take(0) =~= Seq::empty());
    }
}

/// However an audio file is cut into chunks, what arrives is the whole of it, with the
/// chunk that completes it and not before.
pub proof fn law_chunks_make_the_whole(
    pending: Map<u64, Pending>,
    state: AudioState,
    chunks: Seq<Vec<u8>>,
    file: RemoteFile,
    reply: Result<Option<Arrival>, StoreError>,
)
    requires
        state.id != 0,
        state.file == Some(file),
        completes_last(chunks, state.content_size),
    ensures
        ({
            let announced = after_message(pending, CreateAudioForPeer::State(state));
            let before = after_chunks(announced, state.id, chunks.drop_last());
            let last = bringing(state.id, chunks.last());
            &&& before.contains_key(state.id)
            &&& !after_message(before, last).contains_key(state.id)
            &&& replied(before, last, reply) ==> {
                &&& reply matches Ok(Some(arrival))
                &&& arrival.audio_id@ == state.id
                &&& arrival.content@ == concatenated(chunks)
                &&& arrival.file == file
            }
        }),
{
    let announced = after_message(pending, CreateAudioForPeer::State(state));
    lemma_chunks_pile_up(announced, state, chunks, chunks.len() - 1);
    assert(chunks.take(chunks.len() - 1) =~= chunks.drop_last());
}

/// A message about one audio file changes nothing of what has arrived of another.
pub proof fn law_audios_do_not_mix(
    pending: Map<u64, Pending>,
    message: CreateAudioForPeer,
    audio: u64,
)
    requires
        match message {
            CreateAudioForPeer::State(state) => state.id != audio,
            CreateAudioForPeer::Chunk(chunk) => chunk.audio_id != audio,
            CreateAudioForPeer::Unknown => true,
        },
    ensures
        after_message(pending, message).contains_key(audio) == pending.contains_key(audio),
        pending.contains_key(audio) ==> after_message(pending, message)[audio] == pending[audio],
{
}

/// Announcing an audio file again starts it afresh.
pub proof fn law_announcing_again_starts_afresh(
    pending: Map<u64, Pending>,
    first: AudioState,
    chunks: Seq<Vec<u8>>,
    second: AudioState,
)
    requires
        first.id == second.id,
        second.id != 0,
    ensures
        after_message(
            after_chunks(
                after_message(pending, CreateAudioForPeer::State(first)),
                first.id,
                chunks,
            ),
            CreateAudioForPeer::State(second),
        ).contains_pair(second.id, (Pending { state: second, received: Seq::empty() })),
{
}

/// Who asks for an audio file that is there is handed it at once.
pub proof fn law_who_asks_late_is_handed_it(
    first: RemoteAudioStore,
    second: RemoteAudioStore,
    third: RemoteAudioStore,
    audio: u64,
    handle: u64,
    listeners: Seq<u64>,
    listener: u64,
    handed: Option<u64>,
)
    requires
        second.delivered(first, audio, handle, listeners),
        third.asked(second, audio, listener, handed),
    ensures
        handed == Some(handle),
{
}

/// Who asks for an audio file that is not there is handed it when it comes, and so are all
/// who asked before, in their order.
pub proof fn law_who_asks_early_is_handed_it(
    first: RemoteAudioStore,
    second: RemoteAudioStore,
    third: RemoteAudioStore,
    audio: u64,
    handle: u64,
    listeners: Seq<u64>,
    listener: u64,
)
    requires
        second.asked(first, audio, listener, None),
        third.delivered(second, audio, handle, listeners),
    ensures
        listeners == first.waiting(audio).push(listener),
        third.waiting(audio) == Seq::<u64>::empty(),
{
    assert(second.waiting(audio) == first.waiting(audio).push(listener));
}

/// An announcement is taken note of with nothing received yet, and answered with nothing; one
/// without a number is an error, and so is a chunk without a number or of an audio file that
/// was not announced. Errors of this kind, and messages that are not understood, change
/// nothing.
pub proof fn law_announcements_and_strays(
    pending: Map<u64, Pending>,
    message: CreateAudioForPeer,
    reply: Result<Option<Arrival>, StoreError>,
)
    requires
        replied(pending, message, reply),
    ensures
        ({
            let after = after_message(pending, message);
            &&& message matches CreateAudioForPeer::State(state) ==> state.id != 0 ==> {
                &&& reply == Ok::<_, StoreError>(None::<Arrival>)
                &&& after == pending.insert(state.id, Pending { state, received: Seq::empty() })
            }
            &&& message matches CreateAudioForPeer::State(state) ==> state.id == 0 ==> {
                &&& reply == Err::<Option<Arrival>, _>(StoreError::InvalidAudioId)
                &&& after == pending
            }
            &&& message matches CreateAudioForPeer::Chunk(chunk) ==> chunk.audio_id == 0 ==> {
                &&& reply == Err::<Option<Arrival>, _>(StoreError::InvalidAudioId)
                &&& after == pending
            }
            &&& message matches CreateAudioForPeer::Chunk(chunk) ==> chunk.audio_id != 0
                && !pending.contains_key(chunk.audio_id) ==> {
                &&& reply == Err::<Option<Arrival>, _>(StoreError::UnknownAudio)
                &&& after == pending
            }
            &&& message is Unknown ==> {
                &&& reply == Ok::<_, StoreError>(None::<Arrival>)
                &&& after == pending
            }
        }),
{
}

/// A chunk of an announced audio file is put behind what has arrived of it. Where that comes
/// to the announced size and not otherwise, fewer bytes or more, the audio file arrives and
/// is awaited no longer; without a file, that is an error.
pub proof fn law_chunks_are_put_behind_each_other(
    pending: Map<u64, Pending>,
    chunk: AudioChunk,
    reply: Result<Option<Arrival>, StoreError>,
)
    requires
        replied(pending, CreateAudioForPeer::Chunk(chunk), reply),
        chunk.audio_id != 0,
        pending.contains_key(chunk.audio_id),
    ensures
        ({
            let state = pending[chunk.audio_id].state;
            let received = pending[chunk.audio_id].received + chunk.data@;
            let after = after_message(pending, CreateAudioForPeer::Chunk(chunk));
            &&& received.len() != state.content_size ==> {
                &&& reply == Ok::<_, StoreError>(None::<Arrival>)
                &&& after == pending.insert(chunk.audio_id, Pending { state, received })
            }
            &&& received.len() == state.content_size ==> after == pending.remove(chunk.audio_id)
            &&& received.len() == state.content_size && state.file is None ==> reply == Err::<
                Option<Arrival>,
                _,
            >(StoreError::MissingFile)
            &&& state.file matches Some(file) ==> received.len() == state.content_size ==> {
                &&& reply matches Ok(Some(arrival))
                &&& arrival.audio_id@ == chunk.audio_id
                &&& arrival.content@ == received
                &&& arrival.file == file
            }
        }),
{
}

/// Chunks are put together in the order in which they come.
pub proof fn law_chunks_keep_their_order(chunks: Seq<Vec<u8>>, chunk: Vec<u8>)
    ensures
        concatenated(Seq::empty()).len() == 0,
        concatenated(chunks.push(chunk)) == concatenated(chunks) + chunk@,
{
    assert(chunks.push(chunk).drop_last() =~= chunks);
}

/// What has arrived is handed out once: who asks is handed it and it is there no longer, or
/// waits behind those who asked before. Nothing else changes, neither what is arriving nor
/// what there is and who waits of other audio files.
pub proof fn law_what_arrived_is_handed_out_once(
    before: RemoteAudioStore,
    after: RemoteAudioStore,
    audio: u64,
    other: u64,
    listener: u64,
    handed: Option<u64>,
)
    requires
        after.asked(before, audio, listener, handed),
        other != audio,
    ensures
        before.loaded_audios@.contains_key(audio) ==> handed == Some(before.loaded_audios@[audio])
            && after.waiting(audio) == before.waiting(audio),
        !before.loaded_audios@.contains_key(audio) ==> handed is None && after.waiting(audio)
            == before.waiting(audio).push(listener),
        !after.loaded_audios@.contains_key(audio),
        after.loaded_audios@.contains_key(other) == before.loaded_audios@.contains_key(other),
        before.loaded_audios@.contains_key(other) ==> after.loaded_audios@[other]
            == before.loaded_audios@[other],
        after.waiting(other) == before.waiting(other),
        after.pending() == before.pending(),
        after.project_id == before.project_id,
{
}

/// An audio file that is complete goes to all who wait for it, in the order in which they
/// asked, who then wait no longer; and it stays there for who asks next. Nothing else
/// changes.
pub proof fn law_delivery_concerns_one_audio(
    before: RemoteAudioStore,
    after: RemoteAudioStore,
    audio: u64,
    other: u64,
    handle: u64,
    listeners: Seq<u64>,
)
    requires
        after.delivered(before, audio, handle, listeners),
        other != audio,
    ensures
        listeners == before.waiting(audio),
        after.waiting(audio).len() == 0,
        after.loaded_audios@.contains_pair(audio, handle),
        after.loaded_audios@.contains_key(other) == before.loaded_audios@.contains_key(other),
        before.loaded_audios@.contains_key(other) ==> after.loaded_audios@[other]
            == before.loaded_audios@[other],
        after.waiting(other) == before.waiting(other),
        after.pending() == before.pending(),
        after.project_id == before.project_id,
{
}

} // verus!
