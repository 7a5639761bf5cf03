//! The framed writer: takes packets in, hands wire bytes out.
//!
//! `serialize_raw_packet` lays the packet out in the writer's buffer behind a
//! gap of ten bytes, puts the length fields into the gap so that they end
//! where the packet begins, encrypts the frame in place and hands it out as
//! one slice, together with the transport. Whoever drives the writer sends
//! that slice in a single write.

use crate::cfb8::{
    cipher_for, lemma_encrypt_prefix, setup_craft_cipher, slot_state, CipherError, CipherState,
    CraftCipher,
};
use crate::frame::{
    cipher_after, deflate_room, emit, packet_bytes, write_mode, write_step, WriteFailure, WriteMode,
};
use crate::protocol::{PacketDirection, State};
use crate::reader::DEAFULT_MAX_PACKET_SIZE;
use crate::util::{at_least, fill, get_sized_buf, grown};
use crate::varint::{
    encode_septets, encode_varint, lemma_varint_width, put_varint, varint_size,
};
use crate::zlib::{deflate_into, zlib_deflate, ZlibOutcome, ZlibStatus};
use vstd::prelude::*;

verus! {

/// The room in front of a packet for the two length fields of its frame.
pub const HEADER_OFFSET: usize = 10;

/// Why a packet could not be deflated.
#[derive(Debug)]
pub enum CompressErr {
    /// The deflater stopped before the end of the stream: the room for its
    /// output ran out.
    BufError,
    /// The codec refused to deflate.
    Failure(flate2::CompressError),
}

/// Why a packet could not be framed.
#[derive(Debug)]
pub enum WriteError {
    /// The packet could not be deflated.
    CompressFailed { err: CompressErr },
    /// The packet, or the frame body made of it, is longer than the writer
    /// admits or than a length field can say.
    PacketTooLarge { size: usize, max_size: usize },
}

impl View for WriteError {
    type V = WriteFailure;

    open spec fn view(&self) -> WriteFailure {
        match *self {
            WriteError::CompressFailed { err: CompressErr::BufError } => WriteFailure::CompressBuf,
            WriteError::CompressFailed { err: CompressErr::Failure(_) } => {
                WriteFailure::CompressFailure
            },
            WriteError::PacketTooLarge { size, max_size } => WriteFailure::TooLarge {
                size: size as nat,
                max_size: max_size as nat,
            },
        }
    }
}

/// What a write answers.
pub type WriteResult<P> = Result<P, WriteError>;

/// Wraps a transport of type `W` and frames packets for it.
pub struct CraftWriter<W> {
    inner: W,
    raw_buf: Vec<u8>,
    compress_buf: Vec<u8>,
    max_packet_size: usize,
    compression_threshold: Option<i32>,
    state: State,
    direction: PacketDirection,
    encryption: Option<CraftCipher>,
}

/// A writer, as far as its behaviour goes.
pub struct WriterState<W> {
    /// The transport that the writer owns.
    pub transport: W,
    /// The length of the buffer that packets are laid out in.
    pub buffered: nat,
    /// The length of the buffer that packets are deflated into.
    pub scratch: nat,
    pub max_packet_size: nat,
    pub compression_threshold: Option<i32>,
    pub state: State,
    pub direction: PacketDirection,
    /// The encryptor, once encryption is enabled.
    pub cipher: Option<CipherState>,
}

impl<W> WriterState<W> {
    /// A writer that has just been made: nothing buffered, no compression, no
    /// encryption, and the default cap on frame sizes.
    pub open spec fn fresh(transport: W, direction: PacketDirection, state: State) -> Self {
        WriterState {
            transport,
            buffered: 0,
            scratch: 0,
            max_packet_size: DEAFULT_MAX_PACKET_SIZE as nat,
            compression_threshold: None,
            state,
            direction,
            cipher: None,
        }
    }

    /// The writer after it was asked to frame the packet `id`, `body`.
    ///
    /// A packet that is not refused at once is laid out in the buffer, which
    /// grows to hold it behind the gap. One that is to be deflated makes the
    /// second buffer grow to the deflater's room behind a gap. The cipher
    /// moves on by the bytes that are handed out, if any are.
    pub open spec fn after_write(self, id: i32, body: Seq<u8>) -> Self {
        let len = packet_bytes(id, body).len();
        let mode = write_mode(len, self.compression_threshold, self.max_packet_size);
        WriterState {
            buffered: if mode is Ok {
                at_least(self.buffered, HEADER_OFFSET as nat + len)
            } else {
                self.buffered
            },
            scratch: if mode == Ok::<WriteMode, WriteFailure>(WriteMode::Deflated) {
                at_least(self.scratch, HEADER_OFFSET as nat + deflate_room(len))
            } else {
                self.scratch
            },
            cipher: match write_step(id, body, self.compression_threshold, self.max_packet_size) {
                Ok(frame) => cipher_after(self.cipher, emit(self.cipher, frame)),
                Err(_) => self.cipher,
            },
            ..self
        }
    }
}

impl<W> View for CraftWriter<W> {
    type V = WriterState<W>;

    closed spec fn view(&self) -> WriterState<W> {
        WriterState {
            transport: self.inner,
            buffered: self.raw_buf@.len(),
            scratch: self.compress_buf@.len(),
            max_packet_size: self.max_packet_size as nat,
            compression_threshold: self.compression_threshold,
            state: self.state,
            direction: self.direction,
            cipher: slot_state(self.encryption),
        }
    }
}

/// Puts `bytes` into `buf` from `offset` on, growing `buf` where it is too
/// short.
fn store(buf: &mut Vec<u8>, offset: usize, bytes: &[u8])
    requires
        offset + bytes@.len() <= usize::MAX,
    ensures
        final(buf)@.len() == at_least(old(buf)@.len(), offset as nat + bytes@.len()),
        final(buf)@.subrange(offset as int, offset + bytes@.len()) == bytes@,
        forall|i: int|
            0 <= i < offset && i < old(buf)@.len() ==> final(buf)@[i] == old(buf)@[i],
{
    let ghost base = grown(old(buf)@, (offset + bytes@.len()) as nat);
    let target = get_sized_buf(buf, offset, bytes.len());
    fill(target, bytes);
    assert(buf@ == base.take(offset as int) + bytes@ + base.skip(offset + bytes@.len()));
    assert(buf@.subrange(offset as int, offset + bytes@.len()) =~= bytes@);
}

/// Writes the bytes of `v` into `buf` so that they end just before `end`, and
/// says where they start. Nothing else in `buf` changes.
fn prefix(buf: &mut Vec<u8>, end: usize, v: i32) -> (start: usize)
    requires
        5 <= end <= old(buf)@.len(),
    ensures
        start + encode_varint(v).len() == end,
        final(buf)@.len() == old(buf)@.len(),
        final(buf)@.subrange(start as int, end as int) == encode_varint(v),
        forall|i: int|
            0 <= i < old(buf)@.len() && !(start <= i < end) ==> final(buf)@[i] == old(buf)@[i],
{
    let width: usize = varint_size(v);
    let start: usize = end - width;
    let ghost before = buf@;
    let target = get_sized_buf(buf, start, width);
    put_varint(target, v);
    proof {
        assert(grown(before, end as nat) == before);
        assert(buf@ == before.take(start as int) + encode_varint(v) + before.skip(end as int));
        assert(buf@.subrange(start as int, end as int) =~= encode_varint(v));
    }
    start
}

/// Encrypts the bytes of `buf` from `start` up to `end` in place, if there is
/// an encryptor, and hands them out.
fn finish<'a>(
    buf: &'a mut Vec<u8>,
    start: usize,
    end: usize,
    encryption: &mut Option<CraftCipher>,
) -> (frame: &'a [u8])
    requires
        start <= end <= old(buf)@.len(),
        old(encryption).is_some() ==> old(encryption).unwrap()@.encrypting,
    ensures
        final(buf)@.len() == old(buf)@.len(),
        frame@ == emit(slot_state(*old(encryption)), old(buf)@.subrange(start as int, end as int)),
        slot_state(*final(encryption)) == cipher_after(slot_state(*old(encryption)), frame@),
{
    let ghost before = buf@;
    let ghost plain = before.subrange(start as int, end as int);
    let ghost wire = emit(slot_state(*old(encryption)), plain);
    match encryption {
        Some(cipher) => {
            let target = get_sized_buf(buf, start, end - start);
            cipher.encrypt(target);
            proof {
                let entered = old(encryption).unwrap()@;
                lemma_encrypt_prefix(entered.key, entered.register, plain, 0);
                assert(grown(before, end as nat) == before);
                assert(buf@ == before.take(start as int) + wire + before.skip(end as int));
            }
        },
        None => {},
    }
    let frame = vstd::slice::slice_subrange(buf.as_slice(), start, end);
    assert(frame@ =~= wire);
    frame
}

/// Says what a deflater's answer means for the writer: after `StreamEnd`, how
/// many bytes the zlib stream has; every other answer is an error. An answer
/// that claims more output than the `room` that was given is taken as a
/// buffer error.
pub fn deflated_size(answer: Result<ZlibStatus, flate2::CompressError>, room: usize) -> (r:
    WriteResult<usize>)
    ensures
        match answer {
            Ok(ZlibStatus::StreamEnd(n)) => if n <= room {
                r is Ok && r->Ok_0 == n
            } else {
                r is Err && r->Err_0@ == WriteFailure::CompressBuf
            },
            Ok(ZlibStatus::Unfinished) => r is Err && r->Err_0@ == WriteFailure::CompressBuf,
            Ok(ZlibStatus::BufError) => r is Err && r->Err_0@ == WriteFailure::CompressBuf,
            Err(_) => r is Err && r->Err_0@ == WriteFailure::CompressFailure,
        },
{
    match answer {
        Ok(ZlibStatus::StreamEnd(n)) => {
            if n <= room {
                Ok(n)
            } else {
                Err(WriteError::CompressFailed { err: CompressErr::BufError })
            }
        },
        Ok(ZlibStatus::Unfinished) => Err(
            WriteError::CompressFailed { err: CompressErr::BufError },
        ),
        Ok(ZlibStatus::BufError) => Err(WriteError::CompressFailed { err: CompressErr::BufError }),
        Err(err) => Err(WriteError::CompressFailed { err: CompressErr::Failure(err) }),
    }
}

/// Deflates `src` into `target` from `offset` on, with `room` bytes for the
/// zlib stream, and says how long the stream is. `target` is grown to hold
/// the room where it is shorter.
pub fn compress(src: &[u8], target: &mut Vec<u8>, offset: usize, room: usize) -> (r: WriteResult<
    usize,
>)
    requires
        offset + room <= usize::MAX,
    ensures
        final(target)@.len() == at_least(old(target)@.len(), (offset + room) as nat),
        forall|i: int|
            0 <= i < offset && i < old(target)@.len() ==> final(target)@[i] == old(target)@[i],
        match zlib_deflate(src@, room as nat) {
            ZlibOutcome::StreamEnd(out) => r is Ok && r->Ok_0 == out.len() && out.len() <= room
                && final(target)@.subrange(offset as int, offset + out.len()) == out,
            ZlibOutcome::Unfinished => r is Err && r->Err_0@ == WriteFailure::CompressBuf,
            ZlibOutcome::BufError => r is Err && r->Err_0@ == WriteFailure::CompressBuf,
            ZlibOutcome::Failure => r is Err && r->Err_0@ == WriteFailure::CompressFailure,
        },
{
    let ghost base = grown(old(target)@, (offset + room) as nat);
    let compress_buf = get_sized_buf(target, offset, room);
    let answer = deflate_into(src, compress_buf);
    proof {
        assert(target@.len() == base.len());
        match zlib_deflate(src@, room as nat) {
            ZlibOutcome::StreamEnd(out) => {
                assert(target@.subrange(offset as int, offset + out.len()) =~= out);
            },
            _ => {},
        }
    }
    deflated_size(answer, room)
}

impl<W> CraftWriter<W> {
    /// What holds of every writer: the cipher, if there is one, encrypts, and
    /// the cap is above five.
    pub closed spec fn wf(&self) -> bool {
        &&& self.max_packet_size > 5
        &&& match self.encryption {
            Some(c) => c@.encrypting,
            None => true,
        }
    }

    /// What well-formedness means for the view.
    pub proof fn lemma_wf(&self)
        requires
            self.wf(),
        ensures
            self@.max_packet_size > 5,
            self@.cipher is Some ==> self@.cipher->Some_0.encrypting,
    {
    }

    /// A writer in the handshaking state.
    pub fn wrap(inner: W, direction: PacketDirection) -> (w: Self)
        ensures
            w.wf(),
            w@ == WriterState::fresh(inner, direction, State::Handshaking),
    {
        Self::wrap_with_state(inner, direction, State::Handshaking)
    }

    /// A writer in the given state: nothing buffered, no compression, no
    /// encryption, and the default cap on frame sizes.
    pub fn wrap_with_state(inner: W, direction: PacketDirection, state: State) -> (w: Self)
        ensures
            w.wf(),
            w@ == WriterState::fresh(inner, direction, state),
    {
        CraftWriter {
            inner,
            raw_buf: Vec::new(),
            compress_buf: Vec::new(),
            max_packet_size: DEAFULT_MAX_PACKET_SIZE,
            compression_threshold: None,
            state,
            direction,
            encryption: None,
        }
    }

    /// Gives the transport back.
    pub fn into_inner(self) -> (inner: W)
        ensures
            inner == self@.transport,
    {
        self.inner
    }

    /// Lends the transport out. Whatever is done to it leaves the rest of the
    /// writer as it was.
    pub fn inner_mut(&mut self) -> (inner: &mut W)
        requires
            old(self).wf(),
        ensures
            *inner == old(self)@.transport,
            final(self).wf(),
            final(self)@ == (WriterState { transport: *final(inner), ..old(self)@ }),
    {
        &mut self.inner
    }

    /// Sets the state of the connection that the writer serves.
    pub fn set_state(&mut self, next: State)
        requires
            old(self).wf(),
        ensures
            final(self).wf(),
            final(self)@ == (WriterState { state: next, ..old(self)@ }),
    {
        self.state = next;
    }

    /// `None` switches compression off. With `Some`, packets of at least that
    /// many bytes, id included, are deflated, and shorter ones are marked as
    /// stored.
    pub fn set_compression_threshold(&mut self, threshold: Option<i32>)
        requires
            old(self).wf(),
        ensures
            final(self).wf(),
            final(self)@ == (WriterState { compression_threshold: threshold, ..old(self)@ }),
    {
        self.compression_threshold = threshold;
    }

    /// Installs an encryptor for the frames that are written from now on. A
    /// writer that has an encryptor keeps it and answers `AlreadyEnabled`.
    pub fn enable_encryption(&mut self, key: &[u8], iv: &[u8]) -> (r: Result<(), CipherError>)
        requires
            old(self).wf(),
        ensures
            final(self).wf(),
            old(self)@.cipher is Some ==> r == Err::<(), CipherError>(CipherError::AlreadyEnabled)
                && final(self)@ == old(self)@,
            old(self)@.cipher is None ==> match cipher_for(key@, iv@, true) {
                Ok(c) => r is Ok && final(self)@ == (WriterState {
                    cipher: Some(c),
                    ..old(self)@
                }),
                Err(e) => r == Err::<(), CipherError>(e) && final(self)@ == old(self)@,
            },
    {
        setup_craft_cipher(&mut self.encryption, key, iv, true)
    }

    /// Sets the cap on frame sizes. It has to be above five.
    pub fn set_max_packet_size(&mut self, max_size: usize)
        requires
            old(self).wf(),
            max_size > 5,
        ensures
            final(self).wf(),
            final(self)@ == (WriterState { max_packet_size: max_size as nat, ..old(self)@ }),
    {
        self.max_packet_size = max_size;
    }

    /// The cap on frame sizes.
    pub fn max_packet_size(&self) -> (n: usize)
        ensures
            n == self@.max_packet_size,
    {
        self.max_packet_size
    }

    /// The compression threshold, if compression is on.
    pub fn compression_threshold(&self) -> (t: Option<i32>)
        ensures
            t == self@.compression_threshold,
    {
        self.compression_threshold
    }

    /// The state of the connection that the writer serves.
    pub fn state(&self) -> (s: State)
        ensures
            s == self@.state,
    {
        self.state
    }

    /// The direction of the packets that are written.
    pub fn direction(&self) -> (d: PacketDirection)
        ensures
            d == self@.direction,
    {
        self.direction
    }

    /// Whether an encryptor is installed.
    pub fn is_encrypted(&self) -> (b: bool)
        ensures
            b == self@.cipher is Some,
    {
        self.encryption.is_some()
    }

    /// Grows the buffer to `capacity` bytes, or to the cap on frame sizes where
    /// that is less.
    pub fn ensure_buf_capacity(&mut self, capacity: usize)
        requires
            old(self).wf(),
        ensures
            final(self).wf(),
            final(self)@ == (WriterState {
                buffered: at_least(
                    old(self)@.buffered,
                    vstd::math::min(capacity as int, old(self)@.max_packet_size as int) as nat,
                ),
                ..old(self)@
            }),
    {
        let alloc_to: usize = if capacity > self.max_packet_size {
            self.max_packet_size
        } else {
            capacity
        };
        let _ = get_sized_buf(&mut self.raw_buf, 0, alloc_to);
    }

    /// Grows the buffer for deflated packets to `capacity` bytes, or to the
    /// cap on frame sizes where that is less.
    pub fn ensure_compression_buf_capacity(&mut self, capacity: usize)
        requires
            old(self).wf(),
        ensures
            final(self).wf(),
            final(self)@ == (WriterState {
                scratch: at_least(
                    old(self)@.scratch,
                    vstd::math::min(capacity as int, old(self)@.max_packet_size as int) as nat,
                ),
                ..old(self)@
            }),
    {
        let alloc_to: usize = if capacity > self.max_packet_size {
            self.max_packet_size
        } else {
            capacity
        };
        let _ = get_sized_buf(&mut self.compress_buf, 0, alloc_to);
    }

    /// Frames the packet with the number `id` and the body `body`, and hands
    /// out the bytes to send together with the transport to send them on.
    ///
    /// The frame is the length of its body, then the body. With compression
    /// off, the body is the packet: its id, then its bytes. With compression
    /// on, a packet shorter than the threshold is preceded by a zero, and any
    /// other is deflated and preceded by its own length. An encryptor, if
    /// there is one, then encrypts the whole frame and moves on by it.
    ///
    /// A packet is refused as too large where a length would go beyond the cap
    /// or beyond 32 bits; for a packet that is deflated, its own length has to
    /// stay below the cap as well. A refused packet leaves the cipher as it
    /// was. The slice that is handed out lies in the writer's buffers and is
    /// good until the next call.
    pub fn serialize_raw_packet(&mut self, id: i32, body: &[u8]) -> (r: WriteResult<
        (&[u8], &mut W),
    >)
        requires
            old(self).wf(),
            body@.len() + HEADER_OFFSET <= usize::MAX,
        ensures
            final(self).wf(),
            r is Err ==> final(self)@ == old(self)@.after_write(id, body@),
            r is Ok ==> *r->Ok_0.1 == old(self)@.transport && final(self)@ == (WriterState {
                transport: *final(r->Ok_0.1),
                ..old(self)@.after_write(id, body@)
            }),
            match write_step(
                id,
                body@,
                old(self)@.compression_threshold,
                old(self)@.max_packet_size,
            ) {
                Ok(frame) => r is Ok && r->Ok_0.0@ == emit(old(self)@.cipher, frame),
                Err(failure) => r is Err && r->Err_0@ == failure,
            },
    {
        let id_len: usize = varint_size(id);
        let len: usize = id_len + body.len();
        let max_size: usize = self.max_packet_size;
        let cap: usize = if max_size > 0x7fff_ffff {
            0x7fff_ffff
        } else {
            max_size
        };
        let ghost packet = packet_bytes(id, body@);
        proof {
            lemma_varint_width(0);
            assert(encode_varint(0) =~= seq![0u8]) by {
                reveal_with_fuel(encode_septets, 2);
            }
        }
        match self.compression_threshold {
            None => {
                if len > cap {
                    return Err(WriteError::PacketTooLarge { size: len, max_size });
                }
                self.lay_out(id, body);
                let start: usize = prefix(&mut self.raw_buf, HEADER_OFFSET, len as i32);
                proof {
                    assert(self.raw_buf@.subrange(start as int, HEADER_OFFSET + len)
                        =~= encode_varint(len as i32) + packet);
                }
                Ok(
                    (
                        finish(&mut self.raw_buf, start, HEADER_OFFSET + len, &mut self.encryption),
                        &mut self.inner,
                    ),
                )
            },
            Some(threshold) => {
                if threshold > 0 && len < threshold as usize {
                    if len + 1 > cap {
                        return Err(WriteError::PacketTooLarge { size: len + 1, max_size });
                    }
                    self.lay_out(id, body);
                    self.raw_buf[HEADER_OFFSET - 1] = 0u8;
                    let start: usize = prefix(
                        &mut self.raw_buf,
                        HEADER_OFFSET - 1,
                        (len + 1) as i32,
                    );
                    proof {
                        assert(self.raw_buf@.subrange(start as int, HEADER_OFFSET + len)
                            =~= encode_varint((len + 1) as i32) + encode_varint(0) + packet);
                    }
                    Ok(
                        (
                            finish(
                                &mut self.raw_buf,
                                start,
                                HEADER_OFFSET + len,
                                &mut self.encryption,
                            ),
                            &mut self.inner,
                        ),
                    )
                } else {
                    if len >= max_size || len > 0x7fff_ffff {
                        return Err(WriteError::PacketTooLarge { size: len, max_size });
                    }
                    self.lay_out(id, body);
                    let room: usize = len + len / 8 + 256;
                    let src = vstd::slice::slice_subrange(
                        self.raw_buf.as_slice(),
                        HEADER_OFFSET,
                        HEADER_OFFSET + len,
                    );
                    let deflated: usize = match compress(
                        src,
                        &mut self.compress_buf,
                        HEADER_OFFSET,
                        room,
                    ) {
                        Ok(n) => n,
                        Err(err) => {
                            return Err(err);
                        },
                    };
                    let ghost stream = self.compress_buf@.subrange(
                        HEADER_OFFSET as int,
                        HEADER_OFFSET + deflated,
                    );
                    let inner_start: usize = prefix(&mut self.compress_buf, HEADER_OFFSET, len as i32);
                    let payload_len: usize = HEADER_OFFSET - inner_start + deflated;
                    proof {
                        lemma_varint_width(len as i32);
                        assert(self.compress_buf@.subrange(
                            inner_start as int,
                            HEADER_OFFSET + deflated,
                        ) =~= encode_varint(len as i32) + stream);
                    }
                    if payload_len > cap {
                        return Err(WriteError::PacketTooLarge { size: payload_len, max_size });
                    }
                    let ghost payload = self.compress_buf@.subrange(
                        inner_start as int,
                        HEADER_OFFSET + deflated,
                    );
                    let start: usize = prefix(
                        &mut self.compress_buf,
                        inner_start,
                        payload_len as i32,
                    );
                    proof {
                        assert(self.compress_buf@.subrange(start as int, HEADER_OFFSET + deflated)
                            =~= encode_varint(payload_len as i32) + payload);
                    }
                    Ok(
                        (
                            finish(
                                &mut self.compress_buf,
                                start,
                                HEADER_OFFSET + deflated,
                                &mut self.encryption,
                            ),
                            &mut self.inner,
                        ),
                    )
                }
            },
        }
    }

    /// Puts the packet, its id and then its body, into the buffer behind the
    /// gap.
    fn lay_out(&mut self, id: i32, body: &[u8])
        requires
            old(self).wf(),
            body@.len() + HEADER_OFFSET + 5 <= usize::MAX,
        ensures
            final(self).wf(),
            final(self)@ == (WriterState {
                buffered: at_least(
                    old(self)@.buffered,
                    HEADER_OFFSET as nat + packet_bytes(id, body@).len(),
                ),
                ..old(self)@
            }),
            final(self).compress_buf == old(self).compress_buf,
            final(self).encryption == old(self).encryption,
            final(self).raw_buf@.subrange(
                HEADER_OFFSET as int,
                HEADER_OFFSET + packet_bytes(id, body@).len(),
            ) == packet_bytes(id, body@),
    {
        let id_len: usize = varint_size(id);
        store(&mut self.raw_buf, HEADER_OFFSET + id_len, body);
        let ghost stored = self.raw_buf@;
        let target = get_sized_buf(&mut self.raw_buf, HEADER_OFFSET, id_len);
        put_varint(target, id);
        proof {
            let end = HEADER_OFFSET + id_len + body@.len();
            assert(grown(stored, (HEADER_OFFSET + id_len) as nat) == stored);
            assert(self.raw_buf@ == stored.take(HEADER_OFFSET as int) + encode_varint(id)
                + stored.skip(HEADER_OFFSET + id_len));
            assert(self.raw_buf@.subrange(HEADER_OFFSET as int, end as int) =~= encode_varint(id)
                + body@);
        }
    }
}

} // verus!
