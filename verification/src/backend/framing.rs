//! Four-byte big-endian lengths, and the frames behind them.

use vstd::prelude::*;

verus! {

/// The four bytes of a length, most significant first. Lengths wrap at 2^32.
pub open spec fn length_bytes(len: nat) -> Seq<u8> {
    seq![
        (len / 0x100_0000 % 256) as u8,
        (len / 0x1_0000 % 256) as u8,
        (len / 0x100 % 256) as u8,
        (len % 256) as u8,
    ]
}

/// The length that four bytes give.
pub open spec fn length_of(bytes: Seq<u8>) -> nat
    recommends
        bytes.len() == 4,
{
    (bytes[0] * 0x100_0000 + bytes[1] * 0x1_0000 + bytes[2] * 0x100 + bytes[3]) as nat
}

/// A chunk behind its length.
pub open spec fn frame_bytes(chunk: Seq<u8>) -> Seq<u8> {
    length_bytes(chunk.len()) + chunk
}

/// The four bytes in front of `len` bytes.
pub fn length_prefix(len: usize) -> (bytes: [u8; 4])
    ensures
        bytes@ == length_bytes(len as nat),
{
    let n: u64 = len as u64;
    let bytes = [
        (n / 0x100_0000 % 256) as u8,
        (n / 0x1_0000 % 256) as u8,
        (n / 0x100 % 256) as u8,
        (n % 256) as u8,
    ];
    assert(bytes@ =~= length_bytes(len as nat));
    bytes
}

/// The length that four bytes give.
pub fn read_length(bytes: &[u8; 4]) -> (len: u32)
    ensures
        len == length_of(bytes@),
{
    bytes[0] as u32 * 0x100_0000 + bytes[1] as u32 * 0x1_0000 + bytes[2] as u32 * 0x100
        + bytes[3] as u32
}

/// A chunk behind its length.
pub fn encode_frame(chunk: &[u8]) -> (frame: Vec<u8>)
    ensures
        frame@ == frame_bytes(chunk@),
{
    let mut frame: Vec<u8> = Vec::new();
    let prefix = length_prefix(chunk.len());
    frame.extend_from_slice(prefix.as_slice());
    frame.extend_from_slice(chunk);
    assert(frame@ =~= frame_bytes(chunk@));
    frame
}

/// The frames of a list of chunks, put end to end.
pub open spec fn stream_of(chunks: Seq<Seq<u8>>) -> Seq<u8>
    decreases chunks.len(),
{
    if chunks.len() == 0 {
        Seq::empty()
    } else {
        frame_bytes(chunks.first()) + stream_of(chunks.drop_first())
    }
}

/// The chunks of the complete frames at the start of a stream.
pub open spec fn chunks_of(stream: Seq<u8>) -> Seq<Seq<u8>>
    decreases stream.len(),
{
    if stream.len() < 4 {
        Seq::empty()
    } else {
        let len = length_of(stream.take(4));
        if stream.len() < 4 + len {
            Seq::empty()
        } else {
            seq![stream.subrange(4, 4 + len as int)] + chunks_of(stream.skip(4 + len as int))
        }
    }
}

/// A length below 2^32 is read back.
pub proof fn law_length_read_back(len: nat)
    requires
        len <= u32::MAX,
    ensures
        length_of(length_bytes(len)) == len,
{
    assert(len / 0x100_0000 < 256);
    assert(len == len / 0x100 * 0x100 + len % 0x100);
    assert(len / 0x100 == len / 0x1_0000 * 0x100 + len / 0x100 % 0x100);
    assert(len / 0x1_0000 == len / 0x100_0000 * 0x100 + len / 0x1_0000 % 0x100);
}

/// A frame at the start of a stream gives its chunk, then what the rest gives.
proof fn lemma_first_chunk(chunk: Seq<u8>, rest: Seq<u8>)
    requires
        chunk.len() <= u32::MAX,
    ensures
        chunks_of(frame_bytes(chunk) + rest) == seq![chunk] + chunks_of(rest),
{
    let stream = frame_bytes(chunk) + rest;
    let end = 4 + chunk.len() as int;
    law_length_read_back(chunk.len());
    assert(stream.take(4) =~= length_bytes(chunk.len()));
    assert(stream.subrange(4, end) =~= chunk);
    assert(stream.skip(end) =~= rest);
}

/// The frame boundaries survive the stream: chunks that are framed and put end to end come
/// out again, each whole and in order.
pub proof fn law_stream_read_back(chunks: Seq<Seq<u8>>)
    requires
        forall|i: int| 0 <= i < chunks.len() ==> (#[trigger] chunks[i]).len() <= u32::MAX,
    ensures
        chunks_of(stream_of(chunks)) == chunks,
    decreases chunks.len(),
{
    if chunks.len() > 0 {
        let first = chunks[0];
        let rest = chunks.drop_first();
        assert forall|i: int| 0 <= i < rest.len() implies (#[trigger] rest[i]).len() <= u32::MAX by {
            assert(rest[i] == chunks[i + 1]);
        }
        law_stream_read_back(rest);
        lemma_first_chunk(first, stream_of(rest));
        assert(seq![first] + rest =~= chunks);
    }
}

/// Lengths are written with the highest byte first, and as many as four bytes can hold are told
/// apart: longer ones start over.
pub proof fn law_big_endian(a: u8, b: u8, c: u8, d: u8, len: nat)
    ensures
        length_of(seq![a, b, c, d]) == ((a as int * 256 + b) * 256 + c) * 256 + d,
        length_bytes(len).len() == 4,
        length_of(length_bytes(len)) == len % 0x1_0000_0000,
{
    let small = len % 0x1_0000_0000;
    lemma_lengths_wrap(len);
    law_length_read_back(small);
}

/// Lengths that differ by whole multiples of 2^32 have the same bytes.
proof fn lemma_lengths_wrap(len: nat)
    ensures
        length_bytes(len) == length_bytes(len % 0x1_0000_0000),
{
    let small = len % 0x1_0000_0000;
    lemma_byte_wraps(len, len / 0x1_0000_0000, small);
    assert(length_bytes(len) =~= length_bytes(small));
}

/// Each byte of a length depends on its lowest 32 bits alone.
proof fn lemma_byte_wraps(len: nat, big: nat, small: nat)
    requires
        len == big * 0x1_0000_0000 + small,
    ensures
        len % 256 == small % 256,
        len / 0x100 % 256 == small / 0x100 % 256,
        len / 0x1_0000 % 256 == small / 0x1_0000 % 256,
        len / 0x100_0000 % 256 == small / 0x100_0000 % 256,
{
    assert(len / 0x100 == big * 0x100_0000 + small / 0x100);
    assert(len / 0x1_0000 == big * 0x1_0000 + small / 0x1_0000);
    assert(len / 0x100_0000 == big * 0x100 + small / 0x100_0000);
}

/// A frame is four bytes that give the length of the chunk, then the chunk.
pub proof fn law_frame_parts(chunk: Seq<u8>)
    ensures
        frame_bytes(chunk).len() == chunk.len() + 4,
        length_of(frame_bytes(chunk).take(4)) == chunk.len() % 0x1_0000_0000,
        frame_bytes(chunk).skip(4) == chunk,
{
    law_big_endian(0, 0, 0, 0, chunk.len());
    assert(frame_bytes(chunk).take(4) =~= length_bytes(chunk.len()));
    assert(frame_bytes(chunk).skip(4) =~= chunk);
}

/// No chunks make an empty stream; a first chunk comes in front, as its length and its bytes.
pub proof fn law_stream_parts(chunk: Seq<u8>, chunks: Seq<Seq<u8>>)
    ensures
        stream_of(Seq::empty()) == Seq::<u8>::empty(),
        stream_of(seq![chunk] + chunks) == length_bytes(chunk.len()) + chunk + stream_of(chunks),
{
    let all = seq![chunk] + chunks;
    assert(all.first() == chunk);
    assert(all.drop_first() =~= chunks);
}

} // verus!
