//! The wire format, as mathematics.
//!
//! ```text
//! FRAME    := VARINT(outer_len) BODY
//! BODY     := RAWBODY                               compression off
//!           | VARINT(0) RAWBODY                     compression on, stored
//!           | VARINT(data_len) ZLIB(RAWBODY)        compression on, deflated
//! RAWBODY  := VARINT(packet_id) PACKET_BYTES
//! ```
//!
//! `read_step` says what a reader makes of the plaintext it holds, `write_step`
//! what a writer puts on the wire for a packet. The executable reader and
//! writer are specified by these two functions, and the laws at the end of
//! this file relate them.

use crate::cfb8::{
    lemma_decrypt_encrypt, lemma_decrypt_split, lemma_encrypt_prefix, lemma_encrypt_split,
    lemma_register_after, CipherState,
};
use crate::varint::{
    as_signed, encode_septets, encode_varint, lemma_parse_bounds, lemma_parse_local,
    lemma_varint_round_trip, lemma_varint_width, parse_varint, VarintParse,
};
use crate::zlib::{zlib_deflate, zlib_inflate, ZlibOutcome};
use vstd::prelude::*;

verus! {

/// The size that a length field announces: its value where that is not
/// negative; a negative one wraps round to the top of the machine's range.
pub open spec fn wire_size(len: i32) -> nat {
    if len >= 0 {
        len as nat
    } else {
        (usize::MAX + 1 + len) as nat
    }
}

/// Why a read failed.
pub enum ReadFailure {
    /// A number inside the frame is cut off by the frame's end.
    HeaderEof,
    /// Five bytes of a number all announce a successor; these are the five.
    HeaderTooLong(Seq<u8>),
    /// A length field announces more than the reader admits.
    TooLarge { size: nat, max_size: nat },
    /// Inflating stopped short of the end of the stream.
    DecompressBuf,
    /// The compressed bytes are no zlib stream.
    DecompressFailure,
}

/// Why a write failed.
pub enum WriteFailure {
    /// The packet, or the frame body made of it, is longer than the writer
    /// admits or than a length field can say.
    TooLarge { size: nat, max_size: nat },
    /// Deflating stopped short of the end of the stream.
    CompressBuf,
    /// The codec refused to deflate.
    CompressFailure,
}

/// What stands at the front of the reader's plaintext.
pub enum HeaderStep {
    /// At least this many more bytes have to arrive before anything can be
    /// said or done.
    Missing(nat),
    /// A whole frame is there: a length prefix of `width` bytes and a body of
    /// `size` bytes.
    Ready { width: nat, size: nat },
    /// The stream is broken; `consumed` bytes were read to find that out.
    Failed { consumed: nat, failure: ReadFailure },
}

/// Reads the length prefix at the front of `window` and holds it against the
/// cap and against what has arrived.
pub open spec fn header_step(window: Seq<u8>, max_size: nat) -> HeaderStep {
    match parse_varint(window) {
        VarintParse::Eof => HeaderStep::Missing(1),
        VarintParse::TooLong => HeaderStep::Failed {
            consumed: 5,
            failure: ReadFailure::HeaderTooLong(window.take(5)),
        },
        VarintParse::Value { raw, width } => {
            let size = wire_size(as_signed(raw));
            if size > max_size {
                HeaderStep::Failed { consumed: width, failure: ReadFailure::TooLarge { size, max_size } }
            } else if window.len() < width + size {
                HeaderStep::Missing((width + size - window.len()) as nat)
            } else {
                HeaderStep::Ready { width, size }
            }
        },
    }
}

/// Splits a packet into its id and its body.
pub open spec fn split_id(packet: Seq<u8>) -> Result<(i32, Seq<u8>), ReadFailure> {
    match parse_varint(packet) {
        VarintParse::Value { raw, width } => Ok((as_signed(raw), packet.skip(width as int))),
        VarintParse::Eof => Err(ReadFailure::HeaderEof),
        VarintParse::TooLong => Err(ReadFailure::HeaderTooLong(packet.take(5))),
    }
}

/// The room that the reader gives the inflater for the frame body `body`:
/// the announced data length, where there is one to inflate.
pub open spec fn inflate_room(body: Seq<u8>, compression: bool, max_size: nat) -> Option<nat> {
    match parse_varint(body) {
        VarintParse::Value { raw, width } => {
            let data_len = wire_size(as_signed(raw));
            if compression && 0 < data_len < max_size {
                Some(data_len)
            } else {
                None
            }
        },
        _ => None,
    }
}

/// The length of the inflation buffer after the frame body `body` has been
/// read, where it was `scratch` bytes long before: it grows to the room that
/// the body asks for, and never shrinks.
pub open spec fn scratch_after(scratch: nat, body: Seq<u8>, compression: bool, max_size: nat) -> nat {
    match inflate_room(body, compression, max_size) {
        Some(room) => if scratch >= room {
            scratch
        } else {
            room
        },
        None => scratch,
    }
}

/// The packet inside a frame body.
pub open spec fn parse_body(body: Seq<u8>, compression: bool, max_size: nat) -> Result<
    (i32, Seq<u8>),
    ReadFailure,
> {
    if !compression {
        split_id(body)
    } else {
        match parse_varint(body) {
            VarintParse::Eof => Err(ReadFailure::HeaderEof),
            VarintParse::TooLong => Err(ReadFailure::HeaderTooLong(body.take(5))),
            VarintParse::Value { raw, width } => {
                let data_len = wire_size(as_signed(raw));
                let rest = body.skip(width as int);
                if data_len == 0 {
                    split_id(rest)
                } else if data_len >= max_size {
                    Err(ReadFailure::TooLarge { size: data_len, max_size })
                } else {
                    match zlib_inflate(rest, data_len) {
                        ZlibOutcome::StreamEnd(packet) => split_id(packet),
                        ZlibOutcome::Unfinished => Err(ReadFailure::DecompressBuf),
                        ZlibOutcome::BufError => Err(ReadFailure::DecompressBuf),
                        ZlibOutcome::Failure => Err(ReadFailure::DecompressFailure),
                    }
                }
            },
        }
    }
}

/// What one read makes of the plaintext `window`.
pub enum ReadStep {
    /// No whole frame yet; at least this many bytes are missing.
    Missing(nat),
    /// A packet, and how many bytes of the window its frame took.
    Packet { consumed: nat, id: i32, body: Seq<u8> },
    /// An error, and how many bytes of the window were used up on it.
    Failed { consumed: nat, failure: ReadFailure },
}

/// Reads the frame at the front of `window`: its length prefix, and then
/// the packet in its body.
pub open spec fn read_step(window: Seq<u8>, compression: bool, max_size: nat) -> ReadStep {
    match header_step(window, max_size) {
        HeaderStep::Missing(n) => ReadStep::Missing(n),
        HeaderStep::Failed { consumed, failure } => ReadStep::Failed { consumed, failure },
        HeaderStep::Ready { width, size } => {
            let body = window.subrange(width as int, (width + size) as int);
            match parse_body(body, compression, max_size) {
                Ok((id, body)) => ReadStep::Packet { consumed: width + size, id, body },
                Err(failure) => ReadStep::Failed { consumed: width + size, failure },
            }
        },
    }
}

/// A packet as it stands inside a frame: its id, then its body.
pub open spec fn packet_bytes(id: i32, body: Seq<u8>) -> Seq<u8> {
    encode_varint(id) + body
}

/// The room that the writer gives the deflater for `len` bytes of input.
pub open spec fn deflate_room(len: nat) -> nat {
    len + len / 8 + 256
}

/// Puts the length prefix in front of a frame body, if the body's length is
/// within the cap and can be said in 32 bits.
pub open spec fn seal(payload: Seq<u8>, max_size: nat) -> Result<Seq<u8>, WriteFailure> {
    if payload.len() > max_size || payload.len() > i32::MAX {
        Err(WriteFailure::TooLarge { size: payload.len(), max_size })
    } else {
        Ok(encode_varint(payload.len() as i32) + payload)
    }
}

/// The three shapes of a frame body.
pub enum WriteMode {
    /// Compression is off: the packet and nothing else.
    Plain,
    /// Compression is on and the packet is below the threshold: a data length
    /// of zero, then the packet.
    Stored,
    /// Compression is on and the packet has reached the threshold: its
    /// length, then the packet as a zlib stream.
    Deflated,
}

/// Which shape the body for a packet of `len` bytes takes, or why the packet
/// is refused before anything is written.
pub open spec fn write_mode(len: nat, threshold: Option<i32>, max_size: nat) -> Result<
    WriteMode,
    WriteFailure,
> {
    match threshold {
        None => if len > max_size || len > i32::MAX {
            Err(WriteFailure::TooLarge { size: len, max_size })
        } else {
            Ok(WriteMode::Plain)
        },
        Some(threshold) => if len < threshold {
            if len + 1 > max_size || len + 1 > i32::MAX {
                Err(WriteFailure::TooLarge { size: len + 1, max_size })
            } else {
                Ok(WriteMode::Stored)
            }
        } else if len >= max_size || len > i32::MAX {
            Err(WriteFailure::TooLarge { size: len, max_size })
        } else {
            Ok(WriteMode::Deflated)
        },
    }
}

/// The plaintext frame for a packet.
pub open spec fn write_step(id: i32, body: Seq<u8>, threshold: Option<i32>, max_size: nat) -> Result<
    Seq<u8>,
    WriteFailure,
> {
    let packet = packet_bytes(id, body);
    match write_mode(packet.len(), threshold, max_size) {
        Err(failure) => Err(failure),
        Ok(WriteMode::Plain) => Ok(encode_varint(packet.len() as i32) + packet),
        Ok(WriteMode::Stored) => Ok(
            encode_varint((packet.len() + 1) as i32) + encode_varint(0) + packet,
        ),
        Ok(WriteMode::Deflated) => match zlib_deflate(packet, deflate_room(packet.len())) {
            ZlibOutcome::StreamEnd(deflated) => seal(
                encode_varint(packet.len() as i32) + deflated,
                max_size,
            ),
            ZlibOutcome::Unfinished => Err(WriteFailure::CompressBuf),
            ZlibOutcome::BufError => Err(WriteFailure::CompressBuf),
            ZlibOutcome::Failure => Err(WriteFailure::CompressFailure),
        },
    }
}

/// The plaintext that the wire bytes `wire` stand for, given the cipher that
/// they meet. Without a cipher they stand for themselves.
pub open spec fn ingest(cipher: Option<CipherState>, wire: Seq<u8>) -> Seq<u8> {
    match cipher {
        Some(c) => c.decrypt(wire),
        None => wire,
    }
}

/// The wire bytes for the plaintext `plain`, given the cipher that it meets.
pub open spec fn emit(cipher: Option<CipherState>, plain: Seq<u8>) -> Seq<u8> {
    match cipher {
        Some(c) => c.encrypt(plain),
        None => plain,
    }
}

/// The cipher after the wire bytes `wire` have passed it.
pub open spec fn cipher_after(cipher: Option<CipherState>, wire: Seq<u8>) -> Option<CipherState> {
    match cipher {
        Some(c) => Some(c.advance(wire)),
        None => None,
    }
}

/// The pieces of `pieces`, one after the other.
pub open spec fn concat(pieces: Seq<Seq<u8>>) -> Seq<u8>
    decreases pieces.len(),
{
    if pieces.len() == 0 {
        Seq::<u8>::empty()
    } else {
        pieces[0] + concat(pieces.skip(1))
    }
}

/// The plaintext that arrives when the wire bytes come in as `chunks`, each
/// meeting the cipher as the chunks before it left it.
pub open spec fn ingest_all(cipher: Option<CipherState>, chunks: Seq<Seq<u8>>) -> Seq<u8>
    decreases chunks.len(),
{
    if chunks.len() == 0 {
        Seq::<u8>::empty()
    } else {
        ingest(cipher, chunks[0]) + ingest_all(cipher_after(cipher, chunks[0]), chunks.skip(1))
    }
}

/// The wire bytes for the plaintext frames `frames`, each meeting the cipher
/// as the frames before it left it.
pub open spec fn emit_all(cipher: Option<CipherState>, frames: Seq<Seq<u8>>) -> Seq<u8>
    decreases frames.len(),
{
    if frames.len() == 0 {
        Seq::<u8>::empty()
    } else {
        let wire = emit(cipher, frames[0]);
        wire + emit_all(cipher_after(cipher, wire), frames.skip(1))
    }
}

proof fn lemma_frame_header(payload: Seq<u8>, rest: Seq<u8>, max_size: nat)
    requires
        payload.len() <= max_size,
        payload.len() <= i32::MAX,
    ensures
        header_step(encode_varint(payload.len() as i32) + payload + rest, max_size) == (
        HeaderStep::Ready { width: encode_varint(payload.len() as i32).len(), size: payload.len() }),
        (encode_varint(payload.len() as i32) + payload + rest).subrange(
            encode_varint(payload.len() as i32).len() as int,
            (encode_varint(payload.len() as i32).len() + payload.len()) as int,
        ) == payload,
{
    let len = payload.len() as i32;
    let prefix = encode_varint(len);
    let window = prefix + payload + rest;
    assert(window =~= prefix + (payload + rest));
    lemma_varint_round_trip(len, payload + rest);
    assert(window.subrange(prefix.len() as int, (prefix.len() + payload.len()) as int)
        =~= payload);
}

proof fn lemma_split_packet(id: i32, body: Seq<u8>)
    ensures
        split_id(packet_bytes(id, body)) == Ok::<(i32, Seq<u8>), ReadFailure>((id, body)),
{
    lemma_varint_round_trip(id, body);
    assert(packet_bytes(id, body).skip(encode_varint(id).len() as int) =~= body);
}

/// Round trip without compression: the frame that a writer makes of a packet
/// is read back as that packet by any reader that admits frames as large as
/// the writer does, whatever follows the frame in the window. The read
/// consumes the frame and nothing else.
pub proof fn law_plain_round_trip(
    id: i32,
    body: Seq<u8>,
    writer_max: nat,
    reader_max: nat,
    rest: Seq<u8>,
)
    requires
        write_step(id, body, None, writer_max) is Ok,
        writer_max <= reader_max,
    ensures
        read_step(write_step(id, body, None, writer_max)->Ok_0 + rest, false, reader_max) == (
        ReadStep::Packet {
            consumed: write_step(id, body, None, writer_max)->Ok_0.len(),
            id,
            body,
        }),
{
    let packet = packet_bytes(id, body);
    lemma_frame_header(packet, rest, reader_max);
    lemma_split_packet(id, body);
}

/// Round trip with compression, for a packet below the threshold: the frame
/// that the writer makes is read back as the packet by any reader that has
/// compression on and admits frames as large as the writer does.
pub proof fn law_stored_round_trip(
    id: i32,
    body: Seq<u8>,
    threshold: i32,
    writer_max: nat,
    reader_max: nat,
    rest: Seq<u8>,
)
    requires
        packet_bytes(id, body).len() < threshold,
        write_step(id, body, Some(threshold), writer_max) is Ok,
        writer_max <= reader_max,
    ensures
        read_step(
            write_step(id, body, Some(threshold), writer_max)->Ok_0 + rest,
            true,
            reader_max,
        ) == (ReadStep::Packet {
            consumed: write_step(id, body, Some(threshold), writer_max)->Ok_0.len(),
            id,
            body,
        }),
{
    let packet = packet_bytes(id, body);
    let payload = encode_varint(0) + packet;
    lemma_varint_width(0);
    assert(encode_varint(0) =~= seq![0u8]) by {
        reveal_with_fuel(encode_septets, 2);
    }
    assert(encode_varint((packet.len() + 1) as i32) + encode_varint(0) + packet
        =~= encode_varint(payload.len() as i32) + payload);
    lemma_frame_header(payload, rest, reader_max);
    lemma_varint_round_trip(0, packet);
    assert(payload.skip(1) =~= packet);
    lemma_split_packet(id, body);
}

/// Round trip with compression, for a packet that has reached the threshold:
/// the frame that the writer makes is read back as the packet by any reader
/// that has compression on and admits frames as large as the writer does,
/// provided that the zlib stream which the deflater made of the packet
/// inflates to the packet again, in a room as large as the packet.
pub proof fn law_deflated_round_trip(
    id: i32,
    body: Seq<u8>,
    threshold: i32,
    writer_max: nat,
    reader_max: nat,
    rest: Seq<u8>,
)
    requires
        packet_bytes(id, body).len() >= threshold,
        write_step(id, body, Some(threshold), writer_max) is Ok,
        writer_max <= reader_max,
        zlib_inflate(
            zlib_deflate(
                packet_bytes(id, body),
                deflate_room(packet_bytes(id, body).len()),
            )->StreamEnd_0,
            packet_bytes(id, body).len(),
        ) == ZlibOutcome::StreamEnd(packet_bytes(id, body)),
    ensures
        read_step(
            write_step(id, body, Some(threshold), writer_max)->Ok_0 + rest,
            true,
            reader_max,
        ) == (ReadStep::Packet {
            consumed: write_step(id, body, Some(threshold), writer_max)->Ok_0.len(),
            id,
            body,
        }),
{
    let packet = packet_bytes(id, body);
    let deflated = zlib_deflate(packet, deflate_room(packet.len()))->StreamEnd_0;
    let payload = encode_varint(packet.len() as i32) + deflated;
    lemma_varint_width(id);
    lemma_frame_header(payload, rest, reader_max);
    lemma_varint_round_trip(packet.len() as i32, deflated);
    assert(payload.skip(encode_varint(packet.len() as i32).len() as int) =~= deflated);
    lemma_split_packet(id, body);
}

/// Wire compatibility of the stored form: for a packet below the threshold, a
/// writer with compression on puts out what a writer with compression off
/// puts out, but for a zero byte in front of the packet, which the length
/// prefix counts.
pub proof fn law_stored_frame(id: i32, body: Seq<u8>, threshold: i32, max_size: nat)
    requires
        packet_bytes(id, body).len() < threshold,
        packet_bytes(id, body).len() + 1 <= max_size,
    ensures
        write_step(id, body, None, max_size) == Ok::<Seq<u8>, WriteFailure>(
            encode_varint(packet_bytes(id, body).len() as i32) + packet_bytes(id, body),
        ),
        write_step(id, body, Some(threshold), max_size) == Ok::<Seq<u8>, WriteFailure>(
            encode_varint((packet_bytes(id, body).len() + 1) as i32) + seq![0u8] + packet_bytes(
                id,
                body,
            ),
        ),
{
    assert(encode_varint(0) =~= seq![0u8]) by {
        reveal_with_fuel(encode_septets, 2);
    }
}

/// Length-prefix overflow: a window that starts with five bytes which all
/// announce a successor is a framing error, whatever the cap and whatever
/// follows.
pub proof fn law_overlong_prefix(window: Seq<u8>, max_size: nat)
    requires
        window.len() >= 5,
        forall|i: int| 0 <= i < 5 ==> window[i] >= 128,
    ensures
        header_step(window, max_size) == (HeaderStep::Failed {
            consumed: 5,
            failure: ReadFailure::HeaderTooLong(window.take(5)),
        }),
{
    lemma_parse_bounds(window, 5);
}

/// Size cap: a length prefix that announces more than the cap is answered
/// with `TooLarge` as soon as it is complete. Only the prefix is consumed,
/// whether or not bytes of the body have arrived.
pub proof fn law_size_cap(len: i32, rest: Seq<u8>, compression: bool, max_size: nat)
    requires
        len > max_size,
    ensures
        read_step(encode_varint(len) + rest, compression, max_size) == (ReadStep::Failed {
            consumed: encode_varint(len).len(),
            failure: ReadFailure::TooLarge { size: len as nat, max_size },
        }),
{
    lemma_varint_round_trip(len, rest);
}

/// A read that found a packet or an error finds the same when more bytes have
/// arrived behind it: what a read answers depends on the frame at the front
/// alone.
pub proof fn law_read_is_stable(window: Seq<u8>, more: Seq<u8>, compression: bool, max_size: nat)
    requires
        !(read_step(window, compression, max_size) is Missing),
    ensures
        read_step(window + more, compression, max_size) == read_step(
            window,
            compression,
            max_size,
        ),
{
    let longer = window + more;
    lemma_parse_bounds(window, 5);
    match parse_varint(window) {
        VarintParse::Value { raw, width } => {
            assert(longer.take(width as int) =~= window.take(width as int));
            lemma_parse_local(window, 5, longer, 5);
            let size = wire_size(as_signed(raw));
            if size <= max_size {
                assert(longer.subrange(width as int, (width + size) as int) =~= window.subrange(
                    width as int,
                    (width + size) as int,
                ));
            }
        },
        VarintParse::TooLong => {
            lemma_parse_bounds(longer, 5);
            assert(longer.take(5) =~= window.take(5));
            assert forall|i: int| 0 <= i < 5 implies longer[i] >= 128 by {
                assert(longer[i] == window[i]);
            }
        },
        VarintParse::Eof => {},
    }
}

/// Wire bytes that come in pieces give the plaintext, and leave the cipher in
/// the state, that they give when they come at once.
pub proof fn law_supply_in_pieces(cipher: Option<CipherState>, first: Seq<u8>, second: Seq<u8>)
    ensures
        ingest(cipher, first) + ingest(cipher_after(cipher, first), second) == ingest(
            cipher,
            first + second,
        ),
        cipher_after(cipher_after(cipher, first), second) == cipher_after(cipher, first + second),
        ingest(cipher, first).len() == first.len(),
{
    match cipher {
        Some(c) => {
            lemma_decrypt_split(c.key, c.register, first, second);
            lemma_register_after(c.register, first, second);
        },
        None => {},
    }
}

/// Resumability: however the wire bytes are cut into chunks, supplying the
/// chunks in turn fills the ready window with the plaintext of the whole
/// stream.
pub proof fn law_chunks_ingest_as_whole(cipher: Option<CipherState>, chunks: Seq<Seq<u8>>)
    ensures
        ingest_all(cipher, chunks) == ingest(cipher, concat(chunks)),
    decreases chunks.len(),
{
    if chunks.len() == 0 {
        assert(ingest(cipher, Seq::<u8>::empty()) =~= Seq::<u8>::empty());
    } else {
        law_chunks_ingest_as_whole(cipher_after(cipher, chunks[0]), chunks.skip(1));
        law_supply_in_pieces(cipher, chunks[0], concat(chunks.skip(1)));
    }
}

/// Resumability: a reader that is fed the first `k` of the chunks and then
/// finds a packet or an error finds what a reader finds that was given the
/// whole stream at once.
pub proof fn law_resumable(
    cipher: Option<CipherState>,
    chunks: Seq<Seq<u8>>,
    k: int,
    compression: bool,
    max_size: nat,
)
    requires
        0 <= k <= chunks.len(),
        !(read_step(ingest_all(cipher, chunks.take(k)), compression, max_size) is Missing),
    ensures
        read_step(ingest_all(cipher, chunks), compression, max_size) == read_step(
            ingest_all(cipher, chunks.take(k)),
            compression,
            max_size,
        ),
{
    let head = chunks.take(k);
    let tail = chunks.skip(k);
    lemma_concat_split(chunks, k);
    law_chunks_ingest_as_whole(cipher, chunks);
    law_chunks_ingest_as_whole(cipher, head);
    law_supply_in_pieces(cipher, concat(head), concat(tail));
    law_read_is_stable(
        ingest(cipher, concat(head)),
        ingest(cipher_after(cipher, concat(head)), concat(tail)),
        compression,
        max_size,
    );
}

proof fn lemma_concat_split(pieces: Seq<Seq<u8>>, k: int)
    requires
        0 <= k <= pieces.len(),
    ensures
        concat(pieces) == concat(pieces.take(k)) + concat(pieces.skip(k)),
    decreases k,
{
    if k == 0 {
        assert(pieces.skip(0) =~= pieces);
        assert(concat(pieces.take(0)) =~= Seq::<u8>::empty());
        assert(concat(pieces) =~= concat(pieces.take(k)) + concat(pieces.skip(k)));
    } else {
        let rest = pieces.skip(1);
        lemma_concat_split(rest, k - 1);
        assert(rest.take(k - 1) =~= pieces.take(k).skip(1));
        assert(rest.skip(k - 1) =~= pieces.skip(k));
        assert(pieces.take(k)[0] == pieces[0]);
        assert(concat(pieces) =~= concat(pieces.take(k)) + concat(pieces.skip(k)));
    }
}

/// Frames that are encrypted one after the other, each from where the one
/// before it left the cipher, are on the wire what their concatenation would
/// be if it were encrypted at once.
pub proof fn law_frames_emit_as_whole(cipher: Option<CipherState>, frames: Seq<Seq<u8>>)
    ensures
        emit_all(cipher, frames) == emit(cipher, concat(frames)),
    decreases frames.len(),
{
    if frames.len() == 0 {
        assert(emit(cipher, concat(frames)) =~= Seq::<u8>::empty());
    } else {
        let wire = emit(cipher, frames[0]);
        law_frames_emit_as_whole(cipher_after(cipher, wire), frames.skip(1));
        match cipher {
            Some(c) => {
                lemma_encrypt_split(c.key, c.register, frames[0], concat(frames.skip(1)));
            },
            None => {},
        }
    }
}

/// Round trip with encryption: where writer and reader start from the same
/// key and the same register, the frames that the writer encrypts one after
/// the other arrive as their plaintext, one after the other, however the
/// wire bytes are cut into chunks on the way.
pub proof fn law_encrypted_round_trip(
    writer: CipherState,
    reader: CipherState,
    frames: Seq<Seq<u8>>,
    chunks: Seq<Seq<u8>>,
)
    requires
        writer.key == reader.key,
        writer.register == reader.register,
        concat(chunks) == emit_all(Some(writer), frames),
    ensures
        ingest_all(Some(reader), chunks) == concat(frames),
{
    law_frames_emit_as_whole(Some(writer), frames);
    law_chunks_ingest_as_whole(Some(reader), chunks);
    lemma_decrypt_encrypt(writer.key, writer.register, concat(frames));
}

/// Writer and reader stay in step: after the same wire bytes, ciphers that
/// held the same register hold the same register again.
pub proof fn law_ciphers_stay_in_step(writer: CipherState, reader: CipherState, plain: Seq<u8>)
    requires
        writer.key == reader.key,
        writer.register == reader.register,
    ensures
        ingest(Some(reader), emit(Some(writer), plain)) == plain,
        cipher_after(Some(writer), emit(Some(writer), plain))->Some_0.register == cipher_after(
            Some(reader),
            emit(Some(writer), plain),
        )->Some_0.register,
        emit(Some(writer), plain).len() == plain.len(),
{
    lemma_decrypt_encrypt(writer.key, writer.register, plain);
    lemma_encrypt_prefix(writer.key, writer.register, plain, 0);
}

/// Whether a writer's cipher and a reader's cipher are in step: none on
/// either side, or the same key and the same register on both.
pub open spec fn in_step(writer: Option<CipherState>, reader: Option<CipherState>) -> bool {
    match (writer, reader) {
        (None, None) => true,
        (Some(w), Some(r)) => w.key == r.key && w.register == r.register,
        _ => false,
    }
}

/// Round trip, end to end: what a writer puts on the wire for a packet, a
/// reader reads back as that packet, id and body, and consumes in doing so.
///
/// This holds with compression on or off on both sides, whatever the
/// threshold, and with ciphers that are in step, which they then are again
/// after the frame. The reader has to admit frames as large as the writer
/// does. For a packet that the writer deflates, the zlib stream that the
/// deflater made of it has to inflate to the packet again, in a room as
/// large as the packet: that much is asked of the codec.
pub proof fn law_round_trip(
    id: i32,
    body: Seq<u8>,
    threshold: Option<i32>,
    writer_max: nat,
    reader_max: nat,
    writer: Option<CipherState>,
    reader: Option<CipherState>,
    rest: Seq<u8>,
)
    requires
        write_step(id, body, threshold, writer_max) is Ok,
        writer_max <= reader_max,
        in_step(writer, reader),
        write_mode(packet_bytes(id, body).len(), threshold, writer_max) == Ok::<
            WriteMode,
            WriteFailure,
        >(WriteMode::Deflated) ==> zlib_inflate(
            zlib_deflate(
                packet_bytes(id, body),
                deflate_room(packet_bytes(id, body).len()),
            )->StreamEnd_0,
            packet_bytes(id, body).len(),
        ) == ZlibOutcome::StreamEnd(packet_bytes(id, body)),
    ensures
        ({
            let frame = write_step(id, body, threshold, writer_max)->Ok_0;
            let wire = emit(writer, frame);
            &&& wire.len() == frame.len()
            &&& ingest(reader, wire) == frame
            &&& read_step(ingest(reader, wire) + rest, threshold is Some, reader_max) == (
            ReadStep::Packet { consumed: frame.len(), id, body })
            &&& in_step(cipher_after(writer, wire), cipher_after(reader, wire))
        }),
{
    let frame = write_step(id, body, threshold, writer_max)->Ok_0;
    match (writer, reader) {
        (Some(w), Some(r)) => {
            law_ciphers_stay_in_step(w, r, frame);
        },
        _ => {},
    }
    match threshold {
        None => {
            law_plain_round_trip(id, body, writer_max, reader_max, rest);
        },
        Some(t) => {
            if packet_bytes(id, body).len() < t {
                law_stored_round_trip(id, body, t, writer_max, reader_max, rest);
            } else {
                law_deflated_round_trip(id, body, t, writer_max, reader_max, rest);
            }
        },
    }
}

/// The frames that a writer makes of the packets `packets`, one after the
/// other; a packet that the writer refuses gives an empty frame.
pub open spec fn frames_of(
    packets: Seq<(i32, Seq<u8>)>,
    threshold: Option<i32>,
    max_size: nat,
) -> Seq<Seq<u8>> {
    Seq::new(
        packets.len(),
        |i: int|
            match write_step(packets[i].0, packets[i].1, threshold, max_size) {
                Ok(frame) => frame,
                Err(_) => Seq::<u8>::empty(),
            },
    )
}

/// Whether the writer admits every one of `packets`, and the codec gives
/// back every one of them that the writer deflates.
pub open spec fn all_written(
    packets: Seq<(i32, Seq<u8>)>,
    threshold: Option<i32>,
    max_size: nat,
) -> bool {
    forall|i: int|
        0 <= i < packets.len() ==> {
            let packet = packet_bytes(packets[i].0, packets[i].1);
            &&& #[trigger] write_step(packets[i].0, packets[i].1, threshold, max_size) is Ok
            &&& write_mode(packet.len(), threshold, max_size) == Ok::<WriteMode, WriteFailure>(
                WriteMode::Deflated,
            ) ==> zlib_inflate(
                zlib_deflate(packet, deflate_room(packet.len()))->StreamEnd_0,
                packet.len(),
            ) == ZlibOutcome::StreamEnd(packet)
        }
}

/// The packets that up to `count` reads in a row take from the plaintext
/// `window`, as far as the reads find packets.
pub open spec fn read_many(window: Seq<u8>, compression: bool, max_size: nat, count: nat) -> Seq<
    (i32, Seq<u8>),
>
    decreases count,
{
    if count == 0 {
        Seq::<(i32, Seq<u8>)>::empty()
    } else {
        match read_step(window, compression, max_size) {
            ReadStep::Packet { consumed, id, body } => seq![(id, body)] + read_many(
                window.skip(consumed as int),
                compression,
                max_size,
                (count - 1) as nat,
            ),
            _ => Seq::<(i32, Seq<u8>)>::empty(),
        }
    }
}

/// Round trip of a whole conversation: the packets that a writer frames one
/// after the other, a reader reads back one after the other, in the order in
/// which they were written and byte for byte.
///
/// The ciphers of the two are in step at the start, or there are none. The
/// wire bytes may reach the reader in chunks of any sizes, and more may
/// follow them. The reader has to admit frames as large as the writer does,
/// and the codec has to give back what the writer deflates.
pub proof fn law_stream_round_trip(
    packets: Seq<(i32, Seq<u8>)>,
    threshold: Option<i32>,
    writer_max: nat,
    reader_max: nat,
    writer: Option<CipherState>,
    reader: Option<CipherState>,
    chunks: Seq<Seq<u8>>,
    rest: Seq<u8>,
)
    requires
        all_written(packets, threshold, writer_max),
        writer_max <= reader_max,
        in_step(writer, reader),
        concat(chunks) == emit_all(writer, frames_of(packets, threshold, writer_max)),
    ensures
        ingest_all(reader, chunks) == concat(frames_of(packets, threshold, writer_max)),
        read_many(
            ingest_all(reader, chunks) + rest,
            threshold is Some,
            reader_max,
            packets.len(),
        ) == packets,
{
    let frames = frames_of(packets, threshold, writer_max);
    law_frames_emit_as_whole(writer, frames);
    law_chunks_ingest_as_whole(reader, chunks);
    match (writer, reader) {
        (Some(w), Some(r)) => {
            lemma_decrypt_encrypt(w.key, w.register, concat(frames));
        },
        _ => {},
    }
    lemma_read_many(packets, threshold, writer_max, reader_max, rest);
}

proof fn lemma_read_many(
    packets: Seq<(i32, Seq<u8>)>,
    threshold: Option<i32>,
    writer_max: nat,
    reader_max: nat,
    rest: Seq<u8>,
)
    requires
        all_written(packets, threshold, writer_max),
        writer_max <= reader_max,
    ensures
        read_many(
            concat(frames_of(packets, threshold, writer_max)) + rest,
            threshold is Some,
            reader_max,
            packets.len(),
        ) == packets,
    decreases packets.len(),
{
    let frames = frames_of(packets, threshold, writer_max);
    if packets.len() > 0 {
        let later = packets.skip(1);
        let first = packets[0];
        assert(write_step(first.0, first.1, threshold, writer_max) is Ok);
        assert forall|i: int| 0 <= i < later.len() implies {
            let packet = packet_bytes(later[i].0, later[i].1);
            &&& #[trigger] write_step(later[i].0, later[i].1, threshold, writer_max) is Ok
            &&& write_mode(packet.len(), threshold, writer_max) == Ok::<WriteMode, WriteFailure>(
                WriteMode::Deflated,
            ) ==> zlib_inflate(
                zlib_deflate(packet, deflate_room(packet.len()))->StreamEnd_0,
                packet.len(),
            ) == ZlibOutcome::StreamEnd(packet)
        } by {
            assert(later[i] == packets[i + 1]);
            assert(write_step(packets[i + 1].0, packets[i + 1].1, threshold, writer_max) is Ok);
        }
        let tail = concat(frames_of(later, threshold, writer_max)) + rest;
        assert(frames.skip(1) =~= frames_of(later, threshold, writer_max));
        assert(concat(frames) + rest =~= frames[0] + tail);
        law_round_trip(
            first.0,
            first.1,
            threshold,
            writer_max,
            reader_max,
            None,
            None,
            tail,
        );
        assert((frames[0] + tail).skip(frames[0].len() as int) =~= tail);
        lemma_read_many(later, threshold, writer_max, reader_max, rest);
        assert(seq![first] + later =~= packets);
    }
}

} // verus!
