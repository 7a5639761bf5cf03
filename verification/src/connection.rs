//! One reader and one writer for the two directions of one connection.
//!
//! The two halves agree on the protocol state, on the compression threshold
//! and on whether the stream is encrypted, and what the reader takes in goes
//! the opposite way of what the writer puts out. Every change of these
//! settings is made to both halves at once.

use crate::cfb8::{cipher_for, CipherError, CraftCipher};
use crate::frame::{
    deflate_room, emit, header_step, in_step, law_round_trip, packet_bytes, parse_body, read_step,
    write_mode, write_step, HeaderStep, ReadStep, WriteFailure, WriteMode,
};
use crate::zlib::{zlib_deflate, zlib_inflate, ZlibOutcome};
use crate::protocol::{Id, PacketDirection, State};
use crate::reader::{CraftReader, ReadError, ReadProgress, ReadResult, ReaderState};
use crate::util::at_least;
use crate::writer::{CraftWriter, WriteResult, WriterState, HEADER_OFFSET};
use vstd::prelude::*;

verus! {

/// A reader over `R` and a writer over `W` that are kept in agreement.
pub struct CraftConnection<R, W> {
    reader: CraftReader<R>,
    writer: CraftWriter<W>,
}

/// A connection, as far as its behaviour goes.
pub struct ConnectionState<R, W> {
    pub reader: ReaderState<R>,
    pub writer: WriterState<W>,
}

impl<R, W> ConnectionState<R, W> {
    /// The two halves agree: opposite directions, one state, one threshold,
    /// one cap, and encryption on both sides or on neither.
    pub open spec fn mirrored(self) -> bool {
        &&& self.reader.direction == self.writer.direction.spec_opposite()
        &&& self.reader.state == self.writer.state
        &&& self.reader.compression_threshold == self.writer.compression_threshold
        &&& self.reader.max_packet_size == self.writer.max_packet_size
        &&& self.reader.cipher is Some <==> self.writer.cipher is Some
    }
}

/// Round trip between two peers: what the writer of one peer hands out for a
/// packet, supplied to the reader of the other, is read there as that packet.
///
/// The reader has nothing ready before, compression is on at both or at
/// neither, the reader admits frames as large as the writer does, and the
/// ciphers are in step, which they are again afterwards. The read leaves
/// nothing ready. Where the writer deflates the packet, the codec has to
/// give it back.
pub proof fn law_peers_round_trip<R, W>(
    writer: WriterState<W>,
    reader: ReaderState<R>,
    id: i32,
    body: Seq<u8>,
)
    requires
        reader.window.len() == 0,
        writer.compression_threshold is Some <==> reader.compression_threshold is Some,
        writer.max_packet_size <= reader.max_packet_size,
        in_step(writer.cipher, reader.cipher),
        write_step(id, body, writer.compression_threshold, writer.max_packet_size) is Ok,
        write_mode(
            packet_bytes(id, body).len(),
            writer.compression_threshold,
            writer.max_packet_size,
        ) == Ok::<WriteMode, WriteFailure>(WriteMode::Deflated) ==> zlib_inflate(
            zlib_deflate(
                packet_bytes(id, body),
                deflate_room(packet_bytes(id, body).len()),
            )->StreamEnd_0,
            packet_bytes(id, body).len(),
        ) == ZlibOutcome::StreamEnd(packet_bytes(id, body)),
    ensures
        ({
            let frame = write_step(
                id,
                body,
                writer.compression_threshold,
                writer.max_packet_size,
            )->Ok_0;
            let wire = emit(writer.cipher, frame);
            let fed = reader.supplied(wire);
            &&& read_step(fed.window, fed.compression(), fed.max_packet_size) == (
            ReadStep::Packet { consumed: frame.len(), id, body })
            &&& fed.after_read().window.len() == 0
            &&& in_step(writer.after_write(id, body).cipher, fed.after_read().cipher)
        }),
{
    let frame = write_step(id, body, writer.compression_threshold, writer.max_packet_size)->Ok_0;
    let wire = emit(writer.cipher, frame);
    let fed = reader.supplied(wire);
    law_round_trip(
        id,
        body,
        writer.compression_threshold,
        writer.max_packet_size,
        reader.max_packet_size,
        writer.cipher,
        reader.cipher,
        Seq::<u8>::empty(),
    );
    assert(fed.window =~= frame + Seq::<u8>::empty());
    fed.law_read_only_consumes();
}

impl<R, W> View for CraftConnection<R, W> {
    type V = ConnectionState<R, W>;

    closed spec fn view(&self) -> ConnectionState<R, W> {
        ConnectionState { reader: self.reader@, writer: self.writer@ }
    }
}

impl<R, W> CraftConnection<R, W> {
    /// What holds of every connection: both halves are well formed, and they
    /// agree.
    pub closed spec fn wf(&self) -> bool {
        &&& self.reader.wf()
        &&& self.writer.wf()
        &&& self@.mirrored()
    }

    /// What well-formedness means for the view.
    pub proof fn lemma_wf(&self)
        requires
            self.wf(),
        ensures
            self@.mirrored(),
            self@.reader.raw_offset + self@.reader.window.len() <= self@.reader.buffered,
            self@.reader.window_is_plaintext(),
            self@.reader.max_packet_size > 5,
            self@.reader.cipher is Some ==> !self@.reader.cipher->Some_0.encrypting,
            self@.writer.cipher is Some ==> self@.writer.cipher->Some_0.encrypting,
    {
        self.reader.lemma_wf();
        self.writer.lemma_wf();
    }

    /// A connection in the handshaking state that reads packets going in
    /// `read_direction` and writes packets going the other way.
    pub fn wrap(read: R, write: W, read_direction: PacketDirection) -> (c: Self)
        ensures
            c.wf(),
            c@.reader == ReaderState::fresh(read, read_direction, State::Handshaking),
            c@.writer == WriterState::fresh(
                write,
                read_direction.spec_opposite(),
                State::Handshaking,
            ),
    {
        Self::wrap_with_state(read, write, read_direction, State::Handshaking)
    }

    /// A connection in the given state that reads packets going in
    /// `read_direction` and writes packets going the other way.
    pub fn wrap_with_state(read: R, write: W, read_direction: PacketDirection, state: State) -> (c:
        Self)
        ensures
            c.wf(),
            c@.reader == ReaderState::fresh(read, read_direction, state),
            c@.writer == WriterState::fresh(write, read_direction.spec_opposite(), state),
    {
        CraftConnection {
            reader: CraftReader::wrap_with_state(read, read_direction, state),
            writer: CraftWriter::wrap_with_state(write, read_direction.opposite(), state),
        }
    }

    /// Gives both transports back.
    pub fn into_inner(self) -> (inner: (R, W))
        ensures
            inner.0 == self@.reader.transport,
            inner.1 == self@.writer.transport,
    {
        (self.reader.into_inner(), self.writer.into_inner())
    }

    /// Takes the connection apart into its two halves.
    pub fn into_split(self) -> (halves: (CraftReader<R>, CraftWriter<W>))
        requires
            self.wf(),
        ensures
            halves.0.wf(),
            halves.1.wf(),
            halves.0@ == self@.reader,
            halves.1@ == self@.writer,
    {
        (self.reader, self.writer)
    }

    /// Moves both halves to the state `next`.
    pub fn set_state(&mut self, next: State)
        requires
            old(self).wf(),
        ensures
            final(self).wf(),
            final(self)@.reader == (ReaderState { state: next, ..old(self)@.reader }),
            final(self)@.writer == (WriterState { state: next, ..old(self)@.writer }),
    {
        self.reader.set_state(next);
        self.writer.set_state(next);
    }

    /// Sets the compression threshold of both halves; `None` switches
    /// compression off.
    pub fn set_compression_threshold(&mut self, threshold: Option<i32>)
        requires
            old(self).wf(),
        ensures
            final(self).wf(),
            final(self)@.reader == (ReaderState {
                compression_threshold: threshold,
                ..old(self)@.reader
            }),
            final(self)@.writer == (WriterState {
                compression_threshold: threshold,
                ..old(self)@.writer
            }),
    {
        self.reader.set_compression_threshold(threshold);
        self.writer.set_compression_threshold(threshold);
    }

    /// Sets the cap on frame sizes of both halves. It has to be above five.
    pub fn set_max_packet_size(&mut self, max_size: usize)
        requires
            old(self).wf(),
            max_size > 5,
        ensures
            final(self).wf(),
            final(self)@.reader == (ReaderState {
                max_packet_size: max_size as nat,
                ..old(self)@.reader
            }),
            final(self)@.writer == (WriterState {
                max_packet_size: max_size as nat,
                ..old(self)@.writer
            }),
    {
        self.reader.set_max_packet_size(max_size);
        self.writer.set_max_packet_size(max_size);
    }

    /// Grows the buffers of both halves, as their own functions of this name
    /// do.
    pub fn ensure_buf_capacity(&mut self, capacity: usize)
        requires
            old(self).wf(),
        ensures
            final(self).wf(),
            final(self)@.reader == (ReaderState {
                raw_offset: 0,
                buffered: at_least(
                    old(self)@.reader.buffered,
                    vstd::math::min(capacity as int, old(self)@.reader.max_packet_size as int) as nat,
                ),
                ..old(self)@.reader
            }),
            final(self)@.writer == (WriterState {
                buffered: at_least(
                    old(self)@.writer.buffered,
                    vstd::math::min(capacity as int, old(self)@.writer.max_packet_size as int) as nat,
                ),
                ..old(self)@.writer
            }),
    {
        self.reader.ensure_buf_capacity(capacity);
        self.writer.ensure_buf_capacity(capacity);
    }

    /// Grows the compression buffers of both halves, as their own functions
    /// of this name do.
    pub fn ensure_compression_buf_capacity(&mut self, capacity: usize)
        requires
            old(self).wf(),
        ensures
            final(self).wf(),
            final(self)@.reader == (ReaderState {
                scratch: at_least(
                    old(self)@.reader.scratch,
                    vstd::math::min(capacity as int, old(self)@.reader.max_packet_size as int) as nat,
                ),
                ..old(self)@.reader
            }),
            final(self)@.writer == (WriterState {
                scratch: at_least(
                    old(self)@.writer.scratch,
                    vstd::math::min(capacity as int, old(self)@.writer.max_packet_size as int) as nat,
                ),
                ..old(self)@.writer
            }),
    {
        self.reader.ensure_compression_buf_capacity(capacity);
        self.writer.ensure_compression_buf_capacity(capacity);
    }

    /// Installs a decryptor in the reader and an encryptor in the writer, each
    /// from its own key and IV, or neither of them.
    ///
    /// A connection that is encrypted already answers `AlreadyEnabled`. Then
    /// the reader's pair is looked at, then the writer's; the first key or IV
    /// that is not 16 bytes long is the error.
    pub fn enable_encryption(
        &mut self,
        read_key_iv: (&[u8], &[u8]),
        write_key_iv: (&[u8], &[u8]),
    ) -> (r: Result<(), CipherError>)
        requires
            old(self).wf(),
        ensures
            final(self).wf(),
            old(self)@.reader.cipher is Some ==> r == Err::<(), CipherError>(
                CipherError::AlreadyEnabled,
            ) && final(self)@ == old(self)@,
            old(self)@.reader.cipher is None ==> match (
                cipher_for(read_key_iv.0@, read_key_iv.1@, false),
                cipher_for(write_key_iv.0@, write_key_iv.1@, true),
            ) {
                (Ok(decryptor), Ok(encryptor)) => r is Ok && final(self)@.reader == old(
                    self,
                )@.reader.encrypted(decryptor) && final(self)@.writer == (WriterState {
                    cipher: Some(encryptor),
                    ..old(self)@.writer
                }),
                (Err(e), _) => r == Err::<(), CipherError>(e) && final(self)@ == old(self)@,
                (Ok(_), Err(e)) => r == Err::<(), CipherError>(e) && final(self)@ == old(self)@,
            },
    {
        if self.reader.is_encrypted() {
            return Err(CipherError::already_enabled());
        }
        match CraftCipher::new(read_key_iv.0, read_key_iv.1, false) {
            Ok(_) => {},
            Err(e) => {
                return Err(e);
            },
        }
        match CraftCipher::new(write_key_iv.0, write_key_iv.1, true) {
            Ok(_) => {},
            Err(e) => {
                return Err(e);
            },
        }
        match self.reader.enable_encryption(read_key_iv.0, read_key_iv.1) {
            Ok(()) => {},
            Err(e) => {
                return Err(e);
            },
        }
        self.writer.enable_encryption(write_key_iv.0, write_key_iv.1)
    }

    /// The state that both halves are in.
    pub fn state(&self) -> (s: State)
        requires
            self.wf(),
        ensures
            s == self@.reader.state,
            s == self@.writer.state,
    {
        self.reader.state()
    }

    /// The compression threshold of both halves.
    pub fn compression_threshold(&self) -> (t: Option<i32>)
        requires
            self.wf(),
        ensures
            t == self@.reader.compression_threshold,
            t == self@.writer.compression_threshold,
    {
        self.reader.compression_threshold()
    }

    /// Whether encryption is enabled, which it is in both halves or in
    /// neither.
    pub fn is_encrypted(&self) -> (b: bool)
        requires
            self.wf(),
        ensures
            b == self@.reader.cipher is Some,
            b == self@.writer.cipher is Some,
    {
        self.reader.is_encrypted()
    }

    /// Where in the reader's buffer the ready window starts.
    pub fn raw_offset(&self) -> (n: usize)
        ensures
            n == self@.reader.raw_offset,
    {
        self.reader.raw_offset()
    }

    /// How many bytes are in the reader's ready window.
    pub fn raw_ready(&self) -> (n: usize)
        requires
            self.wf(),
        ensures
            n == self@.reader.window.len(),
    {
        self.reader.raw_ready()
    }

    /// The direction of the packets that are read.
    pub fn read_direction(&self) -> (d: PacketDirection)
        ensures
            d == self@.reader.direction,
    {
        self.reader.direction()
    }

    /// The direction of the packets that are written.
    pub fn write_direction(&self) -> (d: PacketDirection)
        ensures
            d == self@.writer.direction,
    {
        self.writer.direction()
    }

    /// Lends the reader's transport out.
    pub fn reader_inner_mut(&mut self) -> (inner: &mut R)
        requires
            old(self).wf(),
        ensures
            *inner == old(self)@.reader.transport,
            final(self).wf(),
            final(self)@.reader == (ReaderState {
                transport: *final(inner),
                ..old(self)@.reader
            }),
            final(self)@.writer == old(self)@.writer,
    {
        self.reader.inner_mut()
    }

    /// Lends the writer's transport out.
    pub fn writer_inner_mut(&mut self) -> (inner: &mut W)
        requires
            old(self).wf(),
        ensures
            *inner == old(self)@.writer.transport,
            final(self).wf(),
            final(self)@.writer == (WriterState {
                transport: *final(inner),
                ..old(self)@.writer
            }),
            final(self)@.reader == old(self)@.reader,
    {
        self.writer.inner_mut()
    }

    /// Hands bytes that have arrived to the reader.
    pub fn supply(&mut self, bytes: &[u8])
        requires
            old(self).wf(),
            old(self)@.reader.raw_offset + old(self)@.reader.window.len() + bytes@.len()
                <= usize::MAX,
        ensures
            final(self).wf(),
            final(self)@.reader == old(self)@.reader.supplied(bytes@),
            final(self)@.writer == old(self)@.writer,
    {
        self.reader.supply(bytes);
    }

    /// Lets the reader look at the length prefix; see
    /// `CraftReader::read_raw_inner`.
    pub fn read_raw_inner(&mut self) -> (r: Result<ReadProgress, ReadError>)
        requires
            old(self).wf(),
        ensures
            final(self).wf(),
            final(self)@.reader == old(self)@.reader.after_header(),
            final(self)@.writer == old(self)@.writer,
            match header_step(old(self)@.reader.window, old(self)@.reader.max_packet_size) {
                HeaderStep::Missing(n) => r is Ok && r->Ok_0 == ReadProgress::Missing(n as usize),
                HeaderStep::Ready { width, size } => r is Ok && r->Ok_0 == ReadProgress::Ready(
                    size as usize,
                ) && size <= final(self)@.reader.window.len(),
                HeaderStep::Failed { consumed, failure } => r is Err && r->Err_0@ == failure,
            },
    {
        self.reader.read_raw_inner()
    }

    /// Lets the reader take a frame body apart; see
    /// `CraftReader::read_untyped_packet_in_buf`.
    pub fn read_untyped_packet_in_buf(&mut self, size: usize) -> (r: ReadResult<(Id, &[u8])>)
        requires
            old(self).wf(),
            size <= old(self)@.reader.window.len(),
        ensures
            final(self).wf(),
            final(self)@.reader == old(self)@.reader.after_body(size as nat),
            final(self)@.writer == old(self)@.writer,
            match parse_body(
                old(self)@.reader.window.take(size as int),
                old(self)@.reader.compression(),
                old(self)@.reader.max_packet_size,
            ) {
                Ok((id, body)) => r is Ok && r->Ok_0 is Some && r->Ok_0->Some_0.0 == (Id {
                    id,
                    state: old(self)@.reader.state,
                    direction: old(self)@.reader.direction,
                }) && r->Ok_0->Some_0.1@ == body,
                Err(failure) => r is Err && r->Err_0@ == failure,
            },
    {
        self.reader.read_untyped_packet_in_buf(size)
    }

    /// Reads the next packet from what has been supplied; see
    /// `CraftReader::read_untyped_packet_inner`.
    pub fn read_untyped_packet_inner(&mut self) -> (r: ReadResult<(Id, &[u8])>)
        requires
            old(self).wf(),
        ensures
            final(self).wf(),
            final(self)@.reader == old(self)@.reader.after_read(),
            final(self)@.writer == old(self)@.writer,
            match read_step(
                old(self)@.reader.window,
                old(self)@.reader.compression(),
                old(self)@.reader.max_packet_size,
            ) {
                ReadStep::Missing(_) => r is Ok && r->Ok_0 is None,
                ReadStep::Packet { consumed, id, body } => r is Ok && r->Ok_0 is Some
                    && r->Ok_0->Some_0.0 == (Id {
                    id,
                    state: old(self)@.reader.state,
                    direction: old(self)@.reader.direction,
                }) && r->Ok_0->Some_0.1@ == body,
                ReadStep::Failed { consumed, failure } => r is Err && r->Err_0@ == failure,
            },
    {
        self.reader.read_untyped_packet_inner()
    }

    /// Lets the writer frame a packet; see `CraftWriter::serialize_raw_packet`.
    pub fn serialize_raw_packet(&mut self, id: i32, body: &[u8]) -> (r: WriteResult<
        (&[u8], &mut W),
    >)
        requires
            old(self).wf(),
            body@.len() + HEADER_OFFSET <= usize::MAX,
        ensures
            final(self).wf(),
            r is Err ==> final(self)@.writer == old(self)@.writer.after_write(id, body@),
            r is Ok ==> *r->Ok_0.1 == old(self)@.writer.transport && final(self)@.writer == (
            WriterState {
                transport: *final(r->Ok_0.1),
                ..old(self)@.writer.after_write(id, body@)
            }),
            final(self)@.reader == old(self)@.reader,
            match write_step(
                id,
                body@,
                old(self)@.writer.compression_threshold,
                old(self)@.writer.max_packet_size,
            ) {
                Ok(frame) => r is Ok && r->Ok_0.0@ == emit(old(self)@.writer.cipher, frame),
                Err(failure) => r is Err && r->Err_0@ == failure,
            },
    {
        self.writer.serialize_raw_packet(id, body)
    }
}

} // verus!
