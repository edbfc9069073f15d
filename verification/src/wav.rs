//! How long a WAV file plays, read from its header.

use vstd::arithmetic::div_mod::lemma_mod_decreases;
use vstd::prelude::*;

use crate::duration::{nanos_of_quotient, Duration};

verus! {

/// The bytes of `tag` at `at`.
pub open spec fn has_tag(bytes: Seq<u8>, at: int, tag: Seq<u8>) -> bool {
    0 <= at && at + 4 <= bytes.len() && bytes.subrange(at, at + 4) == tag
}

/// `RIFF`: the tag at the start of the file.
pub open spec fn riff_tag() -> Seq<u8> {
    seq![0x52u8, 0x49u8, 0x46u8, 0x46u8]
}

/// `WAVE`: the tag behind the size of the file.
pub open spec fn wave_tag() -> Seq<u8> {
    seq![0x57u8, 0x41u8, 0x56u8, 0x45u8]
}

/// `fmt `: the tag of a chunk that describes the samples.
pub open spec fn format_tag() -> Seq<u8> {
    seq![0x66u8, 0x6du8, 0x74u8, 0x20u8]
}

/// `data`: the tag of the chunk that holds the samples.
pub open spec fn data_tag() -> Seq<u8> {
    seq![0x64u8, 0x61u8, 0x74u8, 0x61u8]
}

/// The number that two bytes stand for, the low one first.
pub open spec fn u16_at(bytes: Seq<u8>, at: int) -> nat {
    (bytes[at] + 0x100 * bytes[at + 1]) as nat
}

/// The number that four bytes stand for, the lowest one first.
pub open spec fn u32_at(bytes: Seq<u8>, at: int) -> nat {
    u16_at(bytes, at) + 0x1_0000 * u16_at(bytes, at + 2)
}

/// Whether the file starts as a RIFF file of the WAVE kind does.
pub open spec fn is_wave_file(bytes: Seq<u8>) -> bool {
    has_tag(bytes, 0, riff_tag()) && has_tag(bytes, 8, wave_tag())
}

/// Whether the eight bytes of a chunk's tag and size fit in at `offset`.
pub open spec fn has_chunk(bytes: Seq<u8>, offset: int) -> bool {
    0 <= offset && offset + 8 <= bytes.len()
}

/// The size that the chunk at `offset` gives itself.
pub open spec fn declared_size(bytes: Seq<u8>, offset: int) -> nat {
    u32_at(bytes, offset + 4)
}

/// The size of the chunk at `offset`: what it declares, or what the file has left
/// where that is less.
pub open spec fn chunk_size(bytes: Seq<u8>, offset: int) -> nat {
    let declared = declared_size(bytes, offset);
    let available = (bytes.len() - (offset + 8)) as nat;
    if declared <= available {
        declared
    } else {
        available
    }
}

/// Where the chunk behind the one at `offset` starts: an odd size is padded.
pub open spec fn next_chunk(bytes: Seq<u8>, offset: int) -> int {
    offset + 8 + declared_size(bytes, offset) + declared_size(bytes, offset) % 2
}

/// The offset of the first data chunk from `offset` on.
pub open spec fn find_data(bytes: Seq<u8>, offset: int) -> Option<int>
    decreases
            (if offset <= bytes.len() {
                bytes.len() - offset
            } else {
                0
            }),
{
    if !has_chunk(bytes, offset) {
        None
    } else if has_tag(bytes, offset, data_tag()) {
        Some(offset)
    } else {
        find_data(bytes, next_chunk(bytes, offset))
    }
}

/// The bytes that one second of sound takes, as the format chunk at `offset` says.
pub open spec fn byte_rate(bytes: Seq<u8>, offset: int) -> nat {
    u32_at(bytes, offset + 16)
}

/// The bytes that one frame takes, as the format chunk at `offset` says.
pub open spec fn block_align(bytes: Seq<u8>, offset: int) -> nat {
    u16_at(bytes, offset + 20)
}

/// Whether a usable description of uncompressed samples stands at `offset`.
pub open spec fn is_pcm_format(bytes: Seq<u8>, offset: int) -> bool {
    &&& has_tag(bytes, offset, format_tag())
    &&& chunk_size(bytes, offset) >= 16
    &&& u16_at(bytes, offset + 8) == 1
    &&& byte_rate(bytes, offset) > 0
    &&& block_align(bytes, offset) > 0
}

/// The offset of the last usable format chunk from `offset` on and before `end`.
pub open spec fn last_format(bytes: Seq<u8>, offset: int, end: int) -> Option<int>
    decreases
            (if offset <= bytes.len() {
                bytes.len() - offset
            } else {
                0
            }),
{
    if offset >= end || !has_chunk(bytes, offset) {
        None
    } else {
        match last_format(bytes, next_chunk(bytes, offset), end) {
            Some(later) => Some(later),
            None => if is_pcm_format(bytes, offset) {
                Some(offset)
            } else {
                None
            },
        }
    }
}

/// The whole frames of the data chunk in bytes, and the bytes per second: the
/// first data chunk counts, and the last usable format chunk before it.
pub open spec fn wav_timing(bytes: Seq<u8>) -> Option<(nat, nat)> {
    if !is_wave_file(bytes) {
        None
    } else {
        match find_data(bytes, 12) {
            None => None,
            Some(data) => match last_format(bytes, 12, data) {
                None => None,
                Some(format) => {
                    let size = chunk_size(bytes, data);
                    Some(
                        (
                            (size - size % block_align(bytes, format)) as nat,
                            byte_rate(bytes, format),
                        ),
                    )
                },
            },
        }
    }
}

/// Compares the four bytes at `at` with `a`, `b`, `c` and `d`.
fn tag_is(bytes: &[u8], at: usize, a: u8, b: u8, c: u8, d: u8) -> (same: bool)
    requires
        at + 4 <= bytes.len(),
    ensures
        same == has_tag(bytes@, at as int, seq![a, b, c, d]),
{
    let same = bytes[at] == a && bytes[at + 1] == b && bytes[at + 2] == c && bytes[at + 3] == d;
    proof {
        let tag = bytes@.subrange(at as int, at + 4);
        if same {
            assert(tag =~= seq![a, b, c, d]);
        } else {
            assert(tag[0] == bytes@[at as int]);
            assert(tag[1] == bytes@[at + 1]);
            assert(tag[2] == bytes@[at + 2]);
            assert(tag[3] == bytes@[at + 3]);
            assert(tag != seq![a, b, c, d]);
        }
    }
    same
}

/// Reads two bytes, the low one first.
fn read_u16(bytes: &[u8], at: usize) -> (value: u16)
    requires
        at + 2 <= bytes.len(),
    ensures
        value == u16_at(bytes@, at as int),
{
    bytes[at] as u16 + 0x100 * bytes[at + 1] as u16
}

/// Reads four bytes, the lowest one first.
fn read_u32(bytes: &[u8], at: usize) -> (value: u32)
    requires
        at + 4 <= bytes.len(),
    ensures
        value == u32_at(bytes@, at as int),
{
    read_u16(bytes, at) as u32 + 0x1_0000 * read_u16(bytes, at + 2) as u32
}

/// The size of the chunk at `offset`.
fn size_of_chunk(bytes: &[u8], offset: usize) -> (size: usize)
    requires
        offset + 8 <= bytes.len(),
    ensures
        size == chunk_size(bytes@, offset as int),
{
    let declared: u32 = read_u32(bytes, offset + 4);
    let available: usize = bytes.len() - (offset + 8);
    if declared as usize <= available {
        declared as usize
    } else {
        available
    }
}

/// The byte rate and the frame size of a usable format chunk.
fn read_format(bytes: &[u8], offset: usize) -> (format: Option<(u32, u16)>)
    requires
        offset + 8 <= bytes.len(),
    ensures
        match format {
            None => !is_pcm_format(bytes@, offset as int),
            Some((rate, align)) => {
                &&& is_pcm_format(bytes@, offset as int)
                &&& rate == byte_rate(bytes@, offset as int)
                &&& align == block_align(bytes@, offset as int)
            },
        },
{
    if !tag_is(bytes, offset, 0x66, 0x6d, 0x74, 0x20) || size_of_chunk(bytes, offset) < 16 {
        return None;
    }
    let kind: u16 = read_u16(bytes, offset + 8);
    let rate: u32 = read_u32(bytes, offset + 16);
    let align: u16 = read_u16(bytes, offset + 20);
    if kind == 1 && rate > 0 && align > 0 {
        Some((rate, align))
    } else {
        None
    }
}

/// Where the chunk behind the one at `offset` starts, if that can be counted.
fn following_chunk(bytes: &[u8], offset: usize) -> (following: Option<usize>)
    requires
        offset + 8 <= bytes.len(),
    ensures
        match following {
            None => next_chunk(bytes@, offset as int) > usize::MAX,
            Some(next) => next == next_chunk(bytes@, offset as int) && next >= offset + 8,
        },
{
    let declared: u32 = read_u32(bytes, offset + 4);
    match (offset + 8).checked_add(declared as usize) {
        None => None,
        Some(end) => end.checked_add((declared % 2) as usize),
    }
}

/// The last usable format chunk before the chunk behind `offset`, once it is known
/// before `offset`.
spec fn later_format(
    bytes: Seq<u8>,
    offset: int,
    end: int,
    earlier: Option<int>,
) -> Option<int> {
    match last_format(bytes, offset, end) {
        Some(later) => Some(later),
        None => earlier,
    }
}

/// Whether the walk from the first chunk has come to `offset`, with `format` the last
/// usable format chunk that it passed and no data chunk among those.
spec fn walked_to(bytes: Seq<u8>, offset: int, format: Option<int>) -> bool {
    &&& find_data(bytes, 12) == find_data(bytes, offset)
    &&& forall|end: int|
        end >= offset ==> #[trigger] last_format(bytes, 12, end) == later_format(
            bytes,
            offset,
            end,
            format,
        )
}

/// One step of the walk over a chunk that holds no data.
proof fn lemma_walk(bytes: Seq<u8>, offset: int, format: Option<int>)
    requires
        walked_to(bytes, offset, format),
        has_chunk(bytes, offset),
        !has_tag(bytes, offset, data_tag()),
    ensures
        walked_to(
            bytes,
            next_chunk(bytes, offset),
            if is_pcm_format(bytes, offset) {
                Some(offset)
            } else {
                format
            },
        ),
{
    let following = next_chunk(bytes, offset);
    let newer = if is_pcm_format(bytes, offset) {
        Some(offset)
    } else {
        format
    };
    assert forall|end: int| end >= following implies #[trigger] last_format(bytes, 12, end)
        == later_format(bytes, following, end, newer) by {
        assert(last_format(bytes, 12, end) == later_format(bytes, offset, end, format));
    }
}

/// How long a WAV file of uncompressed samples plays.
///
/// The sizes in the header may claim more than there is, as a recorder leaves
/// them that could not go back to fill them in: what counts is what the file
/// holds. Of the data, only whole frames count. There is no answer for a file
/// that is no WAV file, and for one without a data chunk or without a usable
/// format chunk before it.
pub fn wav_duration_from_bytes(bytes: &[u8]) -> (span: Option<Duration>)
    ensures
        match wav_timing(bytes@) {
            None => span is None,
            Some((size, rate)) => span is Some && span->0@ == nanos_of_quotient(size, rate),
        },
{
    let len: usize = bytes.len();
    if len < 12 || !tag_is(bytes, 0, 0x52, 0x49, 0x46, 0x46) || !tag_is(
        bytes,
        8,
        0x57,
        0x41,
        0x56,
        0x45,
    ) {
        return None;
    }
    let mut format: Option<(u32, u16)> = None;
    let ghost mut format_offset: Option<int> = None;
    let mut offset: usize = 12;
    while offset <= len && len - offset >= 8
        invariant
            len == bytes.len(),
            is_wave_file(bytes@),
            offset >= 12,
            walked_to(bytes@, offset as int, format_offset),
            match format_offset {
                None => format is None,
                Some(at) => {
                    &&& format matches Some((rate, align))
                    &&& rate == byte_rate(bytes@, at)
                    &&& align == block_align(bytes@, at)
                    &&& rate > 0
                    &&& align > 0
                },
            },
        decreases
                (if offset <= len {
                    len - offset
                } else {
                    0
                }),
    {
        if tag_is(bytes, offset, 0x64, 0x61, 0x74, 0x61) {
            assert(last_format(bytes@, 12, offset as int) == format_offset);
            return match format {
                None => None,
                Some((rate, align)) => {
                    let size: usize = size_of_chunk(bytes, offset);
                    proof {
                        lemma_mod_decreases(size as nat, align as nat);
                    }
                    let whole: usize = size - size % align as usize;
                    Some(Duration::from_quotient(whole as u64, rate as u64))
                },
            };
        }
        proof {
            lemma_walk(bytes@, offset as int, format_offset);
        }
        if let Some(usable) = read_format(bytes, offset) {
            format = Some(usable);
            proof {
                format_offset = Some(offset as int);
            }
        }
        match following_chunk(bytes, offset) {
            None => {
                return None;
            },
            Some(next) => {
                offset = next;
            },
        }
    }
    None
}

/// A WAV file in its plainest form: a format chunk of 16 bytes and a data chunk.
pub open spec fn plain_wav(
    riff_size: Seq<u8>,
    format: Seq<u8>,
    data_size: Seq<u8>,
    data: Seq<u8>,
) -> Seq<u8> {
    riff_tag() + riff_size + wave_tag() + format_tag() + seq![16u8, 0u8, 0u8, 0u8] + format
        + data_tag() + data_size + data
}

/// A plain WAV file plays as long as the whole frames that it holds, whatever
/// size its RIFF header claims; a data size that claims more than the file holds
/// counts as what is there.
pub proof fn law_plain_wav(
    riff_size: Seq<u8>,
    format: Seq<u8>,
    data_size: Seq<u8>,
    data: Seq<u8>,
)
    requires
        riff_size.len() == 4,
        format.len() == 16,
        data_size.len() == 4,
        u16_at(format, 0) == 1,
        u32_at(format, 8) > 0,
        u16_at(format, 12) > 0,
    ensures
        ({
            let held = if u32_at(data_size, 0) <= data.len() {
                u32_at(data_size, 0)
            } else {
                data.len()
            };
            wav_timing(plain_wav(riff_size, format, data_size, data)) == Some(
                ((held - held % u16_at(format, 12)) as nat, u32_at(format, 8)),
            )
        }),
{
    let bytes = plain_wav(riff_size, format, data_size, data);
    assert(bytes.len() == 44 + data.len());
    assert(bytes.subrange(0, 4) =~= riff_tag());
    assert(bytes.subrange(8, 12) =~= wave_tag());
    assert(bytes.subrange(12, 16) =~= format_tag());
    assert(bytes.subrange(36, 40) =~= data_tag());
    assert(format_tag()[0] != data_tag()[0]);
    assert(declared_size(bytes, 12) == 16);
    assert(next_chunk(bytes, 12) == 36);
    assert(u16_at(bytes, 20) == u16_at(format, 0));
    assert(byte_rate(bytes, 12) == u32_at(format, 8));
    assert(block_align(bytes, 12) == u16_at(format, 12));
    assert(is_pcm_format(bytes, 12));
    assert(find_data(bytes, 36) == Some(36int));
    assert(find_data(bytes, 12) == Some(36int));
    assert(last_format(bytes, 36, 36) is None);
    assert(last_format(bytes, 12, 36) == Some(12int));
    assert(declared_size(bytes, 36) == u32_at(data_size, 0));
}

/// What stands behind the data chunk plays no part.
pub proof fn law_ignores_what_follows_data(bytes: Seq<u8>, tail: Seq<u8>)
    requires
        is_wave_file(bytes),
        find_data(bytes, 12) matches Some(data) && data + 8 + declared_size(bytes, data)
            <= bytes.len(),
    ensures
        wav_timing(bytes + tail) == wav_timing(bytes),
{
    let longer = bytes + tail;
    assert(longer.subrange(0, 4) =~= bytes.subrange(0, 4));
    assert(longer.subrange(8, 12) =~= bytes.subrange(8, 12));
    let data = find_data(bytes, 12)->0;
    lemma_same_walk(bytes, tail, 12);
    lemma_data_is_chunk(bytes, 12);
    assert(declared_size(longer, data) == declared_size(bytes, data));
    if let Some(format) = last_format(bytes, 12, data) {
        lemma_format_is_chunk(bytes, 12, data);
    }
}

/// The chunk that is found is there.
proof fn lemma_data_is_chunk(bytes: Seq<u8>, offset: int)
    ensures
        find_data(bytes, offset) matches Some(data) ==> has_chunk(bytes, data) && offset <= data,
    decreases
            (if offset <= bytes.len() {
                bytes.len() - offset
            } else {
                0
            }),
{
    if has_chunk(bytes, offset) && !has_tag(bytes, offset, data_tag()) {
        lemma_data_is_chunk(bytes, next_chunk(bytes, offset));
    }
}

/// The format chunk that is found is there, and is usable.
proof fn lemma_format_is_chunk(bytes: Seq<u8>, offset: int, end: int)
    ensures
        last_format(bytes, offset, end) matches Some(format) ==> is_pcm_format(bytes, format)
            && has_chunk(bytes, format),
    decreases
            (if offset <= bytes.len() {
                bytes.len() - offset
            } else {
                0
            }),
{
    if has_chunk(bytes, offset) && offset < end {
        lemma_format_is_chunk(bytes, next_chunk(bytes, offset), end);
    }
}

/// The walk over the chunks up to a data chunk does not see what is appended.
proof fn lemma_same_walk(bytes: Seq<u8>, tail: Seq<u8>, offset: int)
    requires
        offset >= 0,
        find_data(bytes, offset) is Some,
    ensures
        find_data(bytes + tail, offset) == find_data(bytes, offset),
        last_format(bytes + tail, offset, find_data(bytes, offset)->0) == last_format(
            bytes,
            offset,
            find_data(bytes, offset)->0,
        ),
    decreases
            (if offset <= bytes.len() {
                bytes.len() - offset
            } else {
                0
            }),
{
    let longer = bytes + tail;
    let data = find_data(bytes, offset)->0;
    assert(longer.subrange(offset, offset + 4) =~= bytes.subrange(offset, offset + 4));
    assert(declared_size(longer, offset) == declared_size(bytes, offset));
    if !has_tag(bytes, offset, data_tag()) {
        let following = next_chunk(bytes, offset);
        lemma_same_walk(bytes, tail, following);
        lemma_data_is_chunk(bytes, following);
        assert(chunk_size(longer, offset) == chunk_size(bytes, offset));
        assert(is_pcm_format(longer, offset) == is_pcm_format(bytes, offset));
    }
}

/// The number that bytes stand for, the lowest one first.
pub open spec fn little_endian(bytes: Seq<u8>) -> nat
    decreases bytes.len(),
{
    if bytes.len() == 0 {
        0
    } else {
        bytes[0] as nat + 0x100 * little_endian(bytes.skip(1))
    }
}

/// Numbers are read with the lowest byte first.
pub proof fn law_numbers_are_little_endian(bytes: Seq<u8>, at: int)
    requires
        0 <= at,
    ensures
        at + 2 <= bytes.len() ==> u16_at(bytes, at) == little_endian(bytes.subrange(at, at + 2)),
        at + 4 <= bytes.len() ==> u32_at(bytes, at) == little_endian(bytes.subrange(at, at + 4)),
{
    reveal_with_fuel(little_endian, 5);
}

/// The chunk behind one of declared size `d` starts `d` bytes behind its tag and size, or one
/// more where `d` is odd.
pub proof fn law_chunks_start_on_even_bytes(bytes: Seq<u8>, offset: int, declared: nat)
    requires
        0 <= offset,
        offset + 8 <= bytes.len(),
        declared == little_endian(bytes.subrange(offset + 4, offset + 8)),
    ensures
        declared % 2 == 0 ==> next_chunk(bytes, offset) == offset + 8 + declared,
        declared % 2 == 1 ==> next_chunk(bytes, offset) == offset + 8 + declared + 1,
{
    law_numbers_are_little_endian(bytes, offset + 4);
}

/// A chunk as it is written: a tag, the size of what it holds, that, and padding.
pub struct RiffChunk {
    pub tag: Seq<u8>,
    pub size: Seq<u8>,
    pub content: Seq<u8>,
    pub padding: Seq<u8>,
}

impl RiffChunk {
    /// Whether the parts have the lengths that they are to have: what the chunk holds that of
    /// its size, and the padding one byte where that is odd.
    pub open spec fn is_whole(self) -> bool {
        &&& self.tag.len() == 4
        &&& self.size.len() == 4
        &&& little_endian(self.size) == self.content.len()
        &&& self.padding.len() == if self.content.len() % 2 == 0 {
            0nat
        } else {
            1nat
        }
    }

    /// The bytes of the chunk.
    pub open spec fn bytes(self) -> Seq<u8> {
        self.tag + self.size + self.content + self.padding
    }

    /// Whether the chunk describes uncompressed samples: it is tagged `fmt `, holds sixteen
    /// bytes or more, and says `1` in its first two. The rate in bytes stands in the four
    /// bytes from the ninth on, and the size of a frame in the two behind them; neither is
    /// zero.
    pub open spec fn describes_samples(self) -> bool {
        &&& self.tag == seq![0x66u8, 0x6du8, 0x74u8, 0x20u8]
        &&& self.content.len() >= 16
        &&& little_endian(self.content.subrange(0, 2)) == 1
        &&& self.rate() > 0
        &&& self.frame_size() > 0
    }

    /// The bytes per second that a chunk tagged `fmt ` gives.
    pub open spec fn rate(self) -> nat {
        little_endian(self.content.subrange(8, 12))
    }

    /// The bytes per frame that a chunk tagged `fmt ` gives.
    pub open spec fn frame_size(self) -> nat {
        little_endian(self.content.subrange(12, 14))
    }
}

/// Whether these are whole chunks, none of which is tagged `data`.
pub open spec fn come_before_data(chunks: Seq<RiffChunk>) -> bool {
    forall|i: int|
        0 <= i < chunks.len() ==> (#[trigger] chunks[i]).is_whole() && chunks[i].tag
            != seq![0x64u8, 0x61u8, 0x74u8, 0x61u8]
}

/// The bytes of chunks that stand one behind the other.
pub open spec fn written(chunks: Seq<RiffChunk>) -> Seq<u8>
    decreases chunks.len(),
{
    if chunks.len() == 0 {
        Seq::empty()
    } else {
        written(chunks.drop_last()) + chunks.last().bytes()
    }
}

/// The rate and the frame size in the last of the chunks that describes samples.
pub open spec fn description(chunks: Seq<RiffChunk>) -> Option<(nat, nat)>
    decreases chunks.len(),
{
    if chunks.len() == 0 {
        None
    } else if chunks.last().describes_samples() {
        Some((chunks.last().rate(), chunks.last().frame_size()))
    } else {
        description(chunks.drop_last())
    }
}

/// The first bytes of a WAV file, whatever size it gives for itself.
pub open spec fn file_header(size: Seq<u8>) -> Seq<u8> {
    seq![0x52u8, 0x49u8, 0x46u8, 0x46u8] + size + seq![0x57u8, 0x41u8, 0x56u8, 0x45u8]
}

/// The bytes of a data chunk and of whatever follows its tag and size.
pub open spec fn data_chunk(size: Seq<u8>, rest: Seq<u8>) -> Seq<u8> {
    seq![0x64u8, 0x61u8, 0x74u8, 0x61u8] + size + rest
}

/// What the last usable format chunk from `start` on and before `end` says.
spec fn format_between(bytes: Seq<u8>, start: int, end: int) -> Option<(nat, nat)> {
    match last_format(bytes, start, end) {
        Some(format) => Some((byte_rate(bytes, format), block_align(bytes, format))),
        None => None,
    }
}

/// What the bytes at the end of `prefix` say where a whole chunk stands there.
proof fn lemma_whole_chunk(prefix: Seq<u8>, chunk: RiffChunk, rest: Seq<u8>)
    requires
        chunk.is_whole(),
    ensures
        ({
            let bytes = prefix + chunk.bytes() + rest;
            let offset = prefix.len() as int;
            &&& has_chunk(bytes, offset)
            &&& has_tag(bytes, offset, data_tag()) <==> chunk.tag == data_tag()
            &&& next_chunk(bytes, offset) == offset + chunk.bytes().len()
            &&& is_pcm_format(bytes, offset) <==> chunk.describes_samples()
            &&& chunk.content.len() >= 16 ==> byte_rate(bytes, offset) == chunk.rate()
                && block_align(bytes, offset) == chunk.frame_size()
        }),
{
    let bytes = prefix + chunk.bytes() + rest;
    let offset = prefix.len() as int;
    assert(bytes.subrange(offset, offset + 4) =~= chunk.tag);
    assert(bytes.subrange(offset + 4, offset + 8) =~= chunk.size);
    law_chunks_start_on_even_bytes(bytes, offset, chunk.content.len());
    law_numbers_are_little_endian(bytes, offset + 4);
    if chunk.content.len() >= 16 {
        assert(bytes.subrange(offset + 8, offset + 10) =~= chunk.content.subrange(0, 2));
        assert(bytes.subrange(offset + 16, offset + 20) =~= chunk.content.subrange(8, 12));
        assert(bytes.subrange(offset + 20, offset + 22) =~= chunk.content.subrange(12, 14));
        law_numbers_are_little_endian(bytes, offset + 8);
        law_numbers_are_little_endian(bytes, offset + 16);
        law_numbers_are_little_endian(bytes, offset + 20);
    }
}

/// Where the walk over whole chunks leads, and what it finds on its way.
proof fn lemma_walk_over_chunks(
    prefix: Seq<u8>,
    chunks: Seq<RiffChunk>,
    rest: Seq<u8>,
    stop: int,
)
    requires
        come_before_data(chunks),
        stop >= prefix.len() + written(chunks).len(),
    ensures
        ({
            let bytes = prefix + written(chunks) + rest;
            let start = prefix.len() as int;
            let end = start + written(chunks).len();
            &&& find_data(bytes, start) == find_data(bytes, end)
            &&& format_between(bytes, start, stop) == match format_between(bytes, end, stop) {
                Some(format) => Some(format),
                None => description(chunks),
            }
        }),
    decreases chunks.len(),
{
    let bytes = prefix + written(chunks) + rest;
    if chunks.len() > 0 {
        let earlier = chunks.drop_last();
        let last = chunks.last();
        assert(chunks[chunks.len() - 1] == last);
        assert forall|i: int| 0 <= i < earlier.len() implies (
        #[trigger] earlier[i]).is_whole() && earlier[i].tag
            != seq![0x64u8, 0x61u8, 0x74u8, 0x61u8] by {
            assert(earlier[i] == chunks[i]);
        }
        lemma_walk_over_chunks(prefix, earlier, last.bytes() + rest, stop);
        assert(prefix + written(earlier) + (last.bytes() + rest) =~= bytes);
        lemma_whole_chunk(prefix + written(earlier), last, rest);
        assert((prefix + written(earlier)) + last.bytes() + rest =~= bytes);
        let middle = prefix.len() as int + written(earlier).len() as int;
        assert(find_data(bytes, middle) == find_data(bytes, next_chunk(bytes, middle)));
    } else {
        assert(written(chunks).len() == 0);
    }
}

/// The same chunk is read alike wherever it stands.
proof fn lemma_same_chunk(p: Seq<u8>, q: Seq<u8>, rest: Seq<u8>, at: int)
    requires
        0 <= at,
        at + 8 <= rest.len(),
    ensures
        ({
            let (a, b) = (p + rest, q + rest);
            let (i, j) = (p.len() + at, q.len() + at);
            &&& has_tag(a, i, data_tag()) <==> has_tag(b, j, data_tag())
            &&& declared_size(a, i) == declared_size(b, j)
            &&& chunk_size(a, i) == chunk_size(b, j)
            &&& is_pcm_format(a, i) <==> is_pcm_format(b, j)
            &&& chunk_size(a, i) >= 16 ==> byte_rate(a, i) == byte_rate(b, j) && block_align(a, i)
                == block_align(b, j)
        }),
{
    let (a, b) = (p + rest, q + rest);
    let (i, j) = (p.len() + at, q.len() + at);
    assert(a.subrange(i, i + 4) =~= rest.subrange(at, at + 4));
    assert(b.subrange(j, j + 4) =~= rest.subrange(at, at + 4));
    assert(a.subrange(i + 4, i + 8) =~= b.subrange(j + 4, j + 8));
    law_numbers_are_little_endian(a, i + 4);
    law_numbers_are_little_endian(b, j + 4);
    if chunk_size(a, i) >= 16 {
        assert(a.subrange(i + 8, i + 10) =~= b.subrange(j + 8, j + 10));
        assert(a.subrange(i + 16, i + 20) =~= b.subrange(j + 16, j + 20));
        assert(a.subrange(i + 20, i + 22) =~= b.subrange(j + 20, j + 22));
        law_numbers_are_little_endian(a, i + 8);
        law_numbers_are_little_endian(b, j + 8);
        law_numbers_are_little_endian(a, i + 16);
        law_numbers_are_little_endian(b, j + 16);
        law_numbers_are_little_endian(a, i + 20);
        law_numbers_are_little_endian(b, j + 20);
    }
}

/// The same bytes are read alike wherever they stand.
proof fn lemma_shifted(p: Seq<u8>, q: Seq<u8>, rest: Seq<u8>, at: int, stop: int)
    requires
        0 <= at,
    ensures
        ({
            let (a, b) = (p + rest, q + rest);
            &&& match find_data(a, p.len() + at) {
                Some(data) => {
                    &&& data >= p.len()
                    &&& find_data(b, q.len() + at) == Some(data - p.len() + q.len())
                    &&& chunk_size(a, data) == chunk_size(b, data - p.len() + q.len())
                },
                None => find_data(b, q.len() + at) is None,
            }
            &&& format_between(a, p.len() + at, p.len() + stop) == format_between(
                b,
                q.len() + at,
                q.len() + stop,
            )
        }),
    decreases
            (if at <= rest.len() {
                rest.len() - at
            } else {
                0
            }),
{
    if at + 8 <= rest.len() {
        let (a, b) = (p + rest, q + rest);
        let (i, j) = (p.len() + at, q.len() + at);
        lemma_same_chunk(p, q, rest, at);
        let next = next_chunk(a, i) - p.len();
        assert(next_chunk(b, j) == q.len() + next);
        lemma_shifted(p, q, rest, next, stop);
    }
}

/// A file that starts with the tags of a WAV file.
proof fn lemma_file_header(size: Seq<u8>, rest: Seq<u8>)
    requires
        size.len() == 4,
    ensures
        is_wave_file(file_header(size) + rest),
        file_header(size).len() == 12,
{
    let bytes = file_header(size) + rest;
    assert(bytes.subrange(0, 4) =~= riff_tag());
    assert(bytes.subrange(8, 12) =~= wave_tag());
}

/// How long a file plays of which the chunks from `at` on are left, where those before say
/// `earlier`.
spec fn timing_behind(bytes: Seq<u8>, at: int, earlier: Option<(nat, nat)>) -> Option<(nat, nat)> {
    match find_data(bytes, at) {
        None => None,
        Some(data) => {
            let size = chunk_size(bytes, data);
            match format_between(bytes, at, data) {
                Some((rate, frame)) => Some(((size - size % frame) as nat, rate)),
                None => match earlier {
                    Some((rate, frame)) => Some(((size - size % frame) as nat, rate)),
                    None => None,
                },
            }
        },
    }
}

/// The first chunks of a file count for what they describe.
proof fn lemma_timing_behind(size: Seq<u8>, chunks: Seq<RiffChunk>, rest: Seq<u8>)
    requires
        size.len() == 4,
        come_before_data(chunks),
    ensures
        wav_timing(file_header(size) + written(chunks) + rest) == timing_behind(
            file_header(size) + written(chunks) + rest,
            12 + written(chunks).len() as int,
            description(chunks),
        ),
{
    let header = file_header(size);
    let bytes = header + written(chunks) + rest;
    let end = 12 + written(chunks).len() as int;
    lemma_file_header(size, written(chunks) + rest);
    assert(header + (written(chunks) + rest) =~= bytes);
    lemma_walk_over_chunks(header, chunks, rest, end);
    match find_data(bytes, end) {
        Some(data) => {
            lemma_data_is_behind(bytes, end);
            lemma_walk_over_chunks(header, chunks, rest, data);
        },
        None => {},
    }
}

/// A data chunk is found where it is looked for or behind that.
proof fn lemma_data_is_behind(bytes: Seq<u8>, offset: int)
    ensures
        find_data(bytes, offset) matches Some(data) ==> data >= offset,
    decreases
            (if offset <= bytes.len() {
                bytes.len() - offset
            } else {
                0
            }),
{
    if has_chunk(bytes, offset) {
        lemma_data_is_behind(bytes, next_chunk(bytes, offset));
    }
}

/// A WAV file plays what its data chunk holds in whole frames, at the rate that the last
/// usable format chunk before it gives: of the declared size, what the file has. Where no
/// chunk before the data describes the samples, there is no answer.
pub proof fn law_wav_files_are_read_chunk_by_chunk(
    size: Seq<u8>,
    chunks: Seq<RiffChunk>,
    data_size: Seq<u8>,
    rest: Seq<u8>,
)
    requires
        size.len() == 4,
        come_before_data(chunks),
        data_size.len() == 4,
    ensures
        ({
            let held = if little_endian(data_size) <= rest.len() {
                little_endian(data_size) as int
            } else {
                rest.len() as int
            };
            wav_timing(file_header(size) + written(chunks) + data_chunk(data_size, rest))
                == match description(chunks) {
                Some((rate, frame)) => Some(((held - held % frame as int) as nat, rate)),
                None => None,
            }
        }),
{
    let header = file_header(size);
    let tail = data_chunk(data_size, rest);
    let bytes = header + written(chunks) + tail;
    let data = 12 + written(chunks).len() as int;
    lemma_file_header(size, tail);
    lemma_timing_behind(size, chunks, tail);
    assert(bytes.subrange(data, data + 4) =~= data_tag());
    assert(bytes.subrange(data + 4, data + 8) =~= data_size);
    law_numbers_are_little_endian(bytes, data + 4);
    assert(find_data(bytes, data) == Some(data));
    assert(format_between(bytes, data, data) is None);
}

/// A chunk that neither describes the samples nor holds them does not change how long a file
/// plays, wherever it stands before the data, whatever its size and its contents are.
pub proof fn law_other_chunks_play_no_part(
    size: Seq<u8>,
    chunks: Seq<RiffChunk>,
    other: RiffChunk,
    rest: Seq<u8>,
)
    requires
        size.len() == 4,
        come_before_data(chunks),
        other.is_whole(),
        other.tag != seq![0x64u8, 0x61u8, 0x74u8, 0x61u8],
        other.tag != seq![0x66u8, 0x6du8, 0x74u8, 0x20u8],
    ensures
        wav_timing(file_header(size) + written(chunks) + other.bytes() + rest) == wav_timing(
            file_header(size) + written(chunks) + rest,
        ),
{
    let header = file_header(size);
    let more = chunks.push(other);
    assert(more.drop_last() =~= chunks);
    assert(more.last() == other);
    let p = header + written(more);
    let q = header + written(chunks);
    lemma_file_header(size, rest);
    lemma_timing_behind(size, more, rest);
    lemma_timing_behind(size, chunks, rest);
    assert(p + rest =~= header + written(chunks) + other.bytes() + rest);
    lemma_shifted(p, q, rest, 0, 0);
    match find_data(p + rest, p.len() as int) {
        Some(data) => {
            lemma_shifted(p, q, rest, 0, data - p.len());
        },
        None => {},
    }
    assert(timing_behind(p + rest, p.len() as int, description(chunks)) == timing_behind(
        q + rest,
        q.len() as int,
        description(chunks),
    ));
}

/// There is no answer for a file without a data chunk: one that ends behind whole chunks of
/// other kinds, or within the last of them.
pub proof fn law_no_data_no_time(size: Seq<u8>, chunks: Seq<RiffChunk>, rest: Seq<u8>)
    requires
        size.len() == 4,
        come_before_data(chunks),
        rest.len() >= 8 ==> rest.subrange(0, 4) != seq![0x64u8, 0x61u8, 0x74u8, 0x61u8]
            && little_endian(rest.subrange(4, 8)) >= rest.len() - 8,
    ensures
        wav_timing(file_header(size) + written(chunks) + rest) is None,
{
    let header = file_header(size);
    let bytes = header + written(chunks) + rest;
    let end = header.len() as int + written(chunks).len() as int;
    lemma_file_header(size, rest);
    lemma_walk_over_chunks(header, chunks, rest, end);
    if rest.len() >= 8 {
        assert(bytes.subrange(end, end + 4) =~= rest.subrange(0, 4));
        assert(bytes.subrange(end + 4, end + 8) =~= rest.subrange(4, 8));
        law_chunks_start_on_even_bytes(bytes, end, little_endian(rest.subrange(4, 8)));
        assert(find_data(bytes, next_chunk(bytes, end)) is None);
    }
}

/// There is no answer for a file that does not start as a WAV file does.
pub proof fn law_only_wav_files_are_read(bytes: Seq<u8>)
    ensures
        bytes.len() < 12 ==> wav_timing(bytes) is None,
        bytes.len() >= 12 && (bytes[0] != 0x52 || bytes[1] != 0x49 || bytes[2] != 0x46 || bytes[3]
            != 0x46) ==> wav_timing(bytes) is None,
        bytes.len() >= 12 && (bytes[8] != 0x57 || bytes[9] != 0x41 || bytes[10] != 0x56
            || bytes[11] != 0x45) ==> wav_timing(bytes) is None,
{
    if bytes.len() >= 12 {
        let first = bytes.subrange(0, 4);
        let second = bytes.subrange(8, 12);
        assert(first[0] == bytes[0] && first[1] == bytes[1] && first[2] == bytes[2] && first[3]
            == bytes[3]);
        assert(second[0] == bytes[8] && second[1] == bytes[9] && second[2] == bytes[10]
            && second[3] == bytes[11]);
    }
}

} // verus!
