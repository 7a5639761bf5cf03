//! The framed reader: takes wire bytes in, hands packets out.
//!
//! The reader never touches its transport. Whoever drives it asks
//! `read_raw_inner` what is missing, reads that many bytes from the transport
//! and hands them to `supply`, which decrypts them on the way in. Everything in
//! the ready window is therefore plaintext, decrypted exactly once. When a
//! whole frame is there, `read_untyped_packet_in_buf` takes it apart.

use crate::cfb8::{
    cipher_for, lemma_register_after, setup_craft_cipher, slot_state, CipherError, CipherState,
    CraftCipher,
};
use crate::frame::{
    cipher_after, header_step, ingest, law_supply_in_pieces, parse_body, read_step, scratch_after,
    split_id, wire_size, HeaderStep, ReadFailure, ReadStep,
};
use crate::protocol::{DeserializeErr, Id, PacketDirection, State};
use crate::util::{at_least, fill, get_sized_buf, grown};
use crate::varint::{as_signed, lemma_parse_bounds, parse_varint, read_varint, VarintParse};
use crate::zlib::{inflate_into, zlib_inflate, ZlibOutcome, ZlibStatus};
use vstd::prelude::*;

verus! {

/// The cap on frame sizes that a new reader or writer starts with.
pub const DEAFULT_MAX_PACKET_SIZE: usize = 32 * 1000 * 1000;

/// Why a compressed frame body could not be inflated.
#[derive(Debug)]
pub enum DecompressErr {
    /// The inflater stopped before the end of the stream: input or room for
    /// output ran out.
    BufError,
    /// The compressed bytes are no zlib stream.
    Failure(flate2::DecompressError),
}

/// Why no packet could be read from a frame.
#[derive(Debug)]
#[allow(inconsistent_fields)]
pub enum ReadError {
    /// A length or id field is malformed.
    PacketHeaderErr { err: DeserializeErr },
    /// A compressed frame body could not be inflated.
    DecompressFailed { err: DecompressErr },
    /// A length field announces more than the reader admits.
    PacketTooLarge { size: usize, max_size: usize },
}

impl View for ReadError {
    type V = ReadFailure;

    open spec fn view(&self) -> ReadFailure {
        match *self {
            ReadError::PacketHeaderErr { err: DeserializeErr::Eof } => ReadFailure::HeaderEof,
            ReadError::PacketHeaderErr { err: DeserializeErr::VarNumTooLong(seen) } => {
                ReadFailure::HeaderTooLong(seen@)
            },
            ReadError::DecompressFailed { err: DecompressErr::BufError } => {
                ReadFailure::DecompressBuf
            },
            ReadError::DecompressFailed { err: DecompressErr::Failure(_) } => {
                ReadFailure::DecompressFailure
            },
            ReadError::PacketTooLarge { size, max_size } => ReadFailure::TooLarge {
                size: size as nat,
                max_size: max_size as nat,
            },
        }
    }
}

/// What a read answers: a value, nothing yet, or an error.
pub type ReadResult<P> = Result<Option<P>, ReadError>;

/// What the reader tells its driver after looking at the length prefix.
#[derive(Debug, Clone, Copy, PartialEq, Eq, Structural)]
pub enum ReadProgress {
    /// This many bytes have to be supplied before the next look.
    Missing(usize),
    /// A frame body of this size is ready to be taken apart.
    Ready(usize),
}

/// Wraps a transport of type `R` and deframes what is supplied from it.
///
/// Made with `wrap` or `wrap_with_state`. The buffers are empty until they
/// are first needed.
pub struct CraftReader<R> {
    inner: R,
    raw_buf: Vec<u8>,
    raw_ready: usize,
    raw_offset: usize,
    max_packet_size: usize,
    decompress_buf: Vec<u8>,
    compression_threshold: Option<i32>,
    state: State,
    direction: PacketDirection,
    encryption: Option<CraftCipher>,
    arrived: Ghost<Seq<u8>>,
    clear: Ghost<nat>,
    entry: Ghost<Option<CipherState>>,
}

/// A reader, as far as its behaviour goes.
pub struct ReaderState<R> {
    /// The transport that the reader owns.
    pub transport: R,
    /// The ready window: plaintext that has arrived and is not yet consumed.
    pub window: Seq<u8>,
    /// Where in the buffer the ready window starts.
    pub raw_offset: nat,
    /// The length of the buffer.
    pub buffered: nat,
    /// The length of the buffer that compressed bodies are inflated into.
    pub scratch: nat,
    pub max_packet_size: nat,
    pub compression_threshold: Option<i32>,
    pub state: State,
    pub direction: PacketDirection,
    /// The decryptor, once encryption is enabled.
    pub cipher: Option<CipherState>,
    /// The bytes of the ready window as they arrived from the transport.
    pub arrived: Seq<u8>,
    /// How many bytes at the front of the ready window arrived before
    /// encryption was enabled.
    pub clear: nat,
    /// The decryptor as it was when the first byte arrived that is in the
    /// ready window and was encrypted.
    pub entry: Option<CipherState>,
}

impl<R> ReaderState<R> {
    /// A reader that has just been made: nothing buffered, no compression, no
    /// encryption, and the default cap on frame sizes.
    pub open spec fn fresh(transport: R, direction: PacketDirection, state: State) -> Self {
        ReaderState {
            transport,
            window: Seq::<u8>::empty(),
            raw_offset: 0,
            buffered: 0,
            scratch: 0,
            max_packet_size: DEAFULT_MAX_PACKET_SIZE as nat,
            compression_threshold: None,
            state,
            direction,
            cipher: None,
            arrived: Seq::<u8>::empty(),
            clear: 0,
            entry: None,
        }
    }

    /// Ready-window plaintext: every byte of the ready window is the
    /// plaintext of the byte that arrived for it, decrypted once and in its
    /// place in the stream. What arrived before encryption was enabled stands
    /// as it came; what arrived after it is the decryption of those bytes by
    /// one cipher that went through them in order, and that cipher is now
    /// where they left it.
    pub open spec fn window_is_plaintext(self) -> bool {
        &&& self.clear <= self.arrived.len()
        &&& self.window == self.arrived.take(self.clear as int) + ingest(
            self.entry,
            self.arrived.skip(self.clear as int),
        )
        &&& self.cipher == cipher_after(self.entry, self.arrived.skip(self.clear as int))
    }

    /// The same reader with the decryptor `c` installed: what is ready stays
    /// as it came, and `c` meets the bytes that arrive from now on.
    pub open spec fn encrypted(self, c: CipherState) -> Self {
        ReaderState { cipher: Some(c), entry: Some(c), clear: self.window.len(), ..self }
    }

    /// Whether frame bodies carry a data length.
    pub open spec fn compression(self) -> bool {
        self.compression_threshold is Some
    }

    /// The same reader with the ready window at the front of the buffer.
    pub open spec fn compact(self) -> Self {
        ReaderState { raw_offset: 0, ..self }
    }

    /// The same reader with the first `n` bytes of the ready window gone.
    pub open spec fn consume(self, n: nat) -> Self {
        ReaderState {
            raw_offset: self.raw_offset + n,
            window: self.window.skip(n as int),
            arrived: self.arrived.skip(n as int),
            clear: if n <= self.clear {
                (self.clear - n) as nat
            } else {
                0
            },
            entry: if n <= self.clear {
                self.entry
            } else {
                cipher_after(self.entry, self.arrived.subrange(self.clear as int, n as int))
            },
            ..self
        }
    }

    /// The reader after it has looked at the length prefix: compacted, and
    /// past the prefix unless the frame is not all there yet.
    pub open spec fn after_header(self) -> Self {
        match header_step(self.window, self.max_packet_size) {
            HeaderStep::Missing(_) => self.compact(),
            HeaderStep::Ready { width, size } => self.compact().consume(width),
            HeaderStep::Failed { consumed, failure } => self.compact().consume(consumed),
        }
    }

    /// The reader after it has taken apart a frame body of `size` bytes.
    pub open spec fn after_body(self, size: nat) -> Self {
        ReaderState {
            scratch: scratch_after(
                self.scratch,
                self.window.take(size as int),
                self.compression(),
                self.max_packet_size,
            ),
            ..self.consume(size)
        }
    }

    /// The reader after one attempt to read a packet.
    pub open spec fn after_read(self) -> Self {
        match header_step(self.window, self.max_packet_size) {
            HeaderStep::Ready { width, size } => self.after_header().after_body(size),
            _ => self.after_header(),
        }
    }

    /// The reader after the wire bytes `wire` have been supplied to it: their
    /// plaintext stands behind what was ready, the cipher has moved on by
    /// them, and the buffer has grown where it had to.
    pub open spec fn supplied(self, wire: Seq<u8>) -> Self {
        ReaderState {
            window: self.window + ingest(self.cipher, wire),
            cipher: cipher_after(self.cipher, wire),
            arrived: self.arrived + wire,
            buffered: at_least(self.buffered, self.raw_offset + self.window.len() + wire.len()),
            ..self
        }
    }

    /// How many bytes of the ready window one attempt to read a packet uses
    /// up.
    pub open spec fn consumed_by_read(self) -> nat {
        match read_step(self.window, self.compression(), self.max_packet_size) {
            ReadStep::Missing(_) => 0,
            ReadStep::Packet { consumed, id, body } => consumed,
            ReadStep::Failed { consumed, failure } => consumed,
        }
    }

    /// A read leaves the cipher alone and changes no byte of the ready
    /// window. It drops from the front of the window what it has used up, and
    /// nothing where a frame is not all there yet.
    pub proof fn law_read_only_consumes(self)
        ensures
            self.consumed_by_read() <= self.window.len(),
            self.after_read().window == self.window.skip(self.consumed_by_read() as int),
            self.after_read().raw_offset == self.consumed_by_read(),
            self.after_read().cipher == self.cipher,
            read_step(self.window, self.compression(), self.max_packet_size) is Missing
                ==> self.after_read() == self.compact(),
    {
        lemma_parse_bounds(self.window, 5);
        assert(self.window.skip(0) =~= self.window);
        match header_step(self.window, self.max_packet_size) {
            HeaderStep::Ready { width, size } => {
                assert(self.window.skip(width as int).skip(size as int) =~= self.window.skip(
                    (width + size) as int,
                ));
            },
            _ => {},
        }
    }

    /// Resumability: a read that finds no whole frame leaves nothing behind
    /// but a compacted buffer. Bytes that are supplied after it give the
    /// window, and leave the cipher, that they give without it.
    pub proof fn law_missing_read_is_harmless(self, wire: Seq<u8>)
        requires
            read_step(self.window, self.compression(), self.max_packet_size) is Missing,
        ensures
            self.after_read() == self.compact(),
            self.after_read().supplied(wire).window == self.supplied(wire).window,
            self.after_read().supplied(wire).cipher == self.supplied(wire).cipher,
    {
    }

    /// Resumability: bytes that are supplied in two pieces leave the reader as
    /// it is when they are supplied at once.
    pub proof fn law_supplied_in_pieces(self, first: Seq<u8>, second: Seq<u8>)
        ensures
            self.supplied(first).supplied(second) == self.supplied(first + second),
    {
        law_supply_in_pieces(self.cipher, first, second);
        assert(self.window + ingest(self.cipher, first) + ingest(
            cipher_after(self.cipher, first),
            second,
        ) =~= self.window + ingest(self.cipher, first + second));
        assert(self.arrived + first + second =~= self.arrived + (first + second));
    }

    /// Ready-window plaintext holds of a new reader.
    pub proof fn law_fresh_is_plaintext(transport: R, direction: PacketDirection, state: State)
        ensures
            Self::fresh(transport, direction, state).window_is_plaintext(),
    {
        let s = Self::fresh(transport, direction, state);
        assert(s.window =~= s.arrived.take(0) + ingest(None, s.arrived.skip(0)));
    }

    /// Ready-window plaintext is kept when bytes are supplied: they are
    /// decrypted by the cipher as the bytes before them left it, and no byte
    /// that was ready is decrypted again.
    pub proof fn law_supply_keeps_plaintext(self, wire: Seq<u8>)
        requires
            self.window_is_plaintext(),
        ensures
            self.supplied(wire).window_is_plaintext(),
    {
        let encrypted = self.arrived.skip(self.clear as int);
        law_supply_in_pieces(self.entry, encrypted, wire);
        let after = self.supplied(wire);
        assert(after.arrived.take(after.clear as int) =~= self.arrived.take(self.clear as int));
        assert(after.arrived.skip(after.clear as int) =~= encrypted + wire);
        assert(after.window =~= after.arrived.take(after.clear as int) + ingest(
            after.entry,
            after.arrived.skip(after.clear as int),
        ));
    }

    /// Ready-window plaintext is kept when bytes are consumed: what stays in
    /// the window is not touched.
    pub proof fn law_consume_keeps_plaintext(self, n: nat)
        requires
            self.window_is_plaintext(),
            n <= self.window.len(),
        ensures
            self.consume(n).window_is_plaintext(),
    {
        let after = self.consume(n);
        let encrypted = self.arrived.skip(self.clear as int);
        if n <= self.clear {
            assert(after.arrived.take(after.clear as int) =~= self.arrived.take(
                self.clear as int,
            ).skip(n as int));
            assert(after.arrived.skip(after.clear as int) =~= encrypted);
            assert(after.window =~= after.arrived.take(after.clear as int) + ingest(
                after.entry,
                after.arrived.skip(after.clear as int),
            ));
        } else {
            let used = (n - self.clear) as int;
            assert(self.arrived.subrange(self.clear as int, n as int) =~= encrypted.take(used));
            assert(encrypted.take(used) + encrypted.skip(used) =~= encrypted);
            law_supply_in_pieces(
                self.entry,
                encrypted.take(used),
                encrypted.skip(used),
            );
            assert(after.arrived.skip(0) =~= encrypted.skip(used));
            assert(after.window =~= after.arrived.take(0) + ingest(
                after.entry,
                after.arrived.skip(0),
            ));
        }
    }

    /// Ready-window plaintext is kept when a decryptor is installed in a
    /// reader that has none.
    pub proof fn law_encryption_keeps_plaintext(self, c: CipherState)
        requires
            self.window_is_plaintext(),
            self.cipher is None,
        ensures
            self.encrypted(c).window_is_plaintext(),
    {
        let after = self.encrypted(c);
        lemma_register_after(c.register, Seq::<u8>::empty(), Seq::<u8>::empty());
        assert(self.window =~= self.arrived);
        assert(after.arrived.take(after.clear as int) =~= self.window);
        assert(after.arrived.skip(after.clear as int) =~= Seq::<u8>::empty());
        assert(after.window =~= after.arrived.take(after.clear as int) + ingest(
            after.entry,
            after.arrived.skip(after.clear as int),
        ));
    }

    /// Ready-window plaintext is kept by a read, whatever comes of it.
    pub proof fn law_read_keeps_window_plaintext(self)
        requires
            self.window_is_plaintext(),
        ensures
            self.after_header().window_is_plaintext(),
            self.after_read().window_is_plaintext(),
    {
        lemma_parse_bounds(self.window, 5);
        match header_step(self.window, self.max_packet_size) {
            HeaderStep::Missing(_) => {},
            HeaderStep::Ready { width, size } => {
                self.compact().law_consume_keeps_plaintext(width);
                self.compact().consume(width).law_consume_keeps_plaintext(size);
            },
            HeaderStep::Failed { consumed, failure } => {
                self.compact().law_consume_keeps_plaintext(consumed);
            },
        }
    }
}

impl<R> View for CraftReader<R> {
    type V = ReaderState<R>;

    closed spec fn view(&self) -> ReaderState<R> {
        ReaderState {
            transport: self.inner,
            window: self.raw_buf@.subrange(
                self.raw_offset as int,
                self.raw_offset + self.raw_ready,
            ),
            raw_offset: self.raw_offset as nat,
            buffered: self.raw_buf@.len(),
            scratch: self.decompress_buf@.len(),
            max_packet_size: self.max_packet_size as nat,
            compression_threshold: self.compression_threshold,
            state: self.state,
            direction: self.direction,
            cipher: slot_state(self.encryption),
            arrived: self.arrived@,
            clear: self.clear@,
            entry: self.entry@,
        }
    }
}

/// The size that a length field announces, as the machine counts.
fn size_of_length(len: i32) -> (size: usize)
    ensures
        size == wire_size(len),
{
    if len >= 0 {
        len as usize
    } else {
        usize::MAX - ((-(len + 1)) as usize)
    }
}

/// Says what an inflater's answer means for the reader: after `StreamEnd`,
/// the packet is the front of `buf`, as far as the inflater wrote; every other
/// answer is an error. An answer that claims more output than `buf` holds is
/// taken as a buffer error.
pub fn inflated_packet<'a>(
    answer: Result<ZlibStatus, flate2::DecompressError>,
    buf: &'a [u8],
) -> (r: Result<&'a [u8], ReadError>)
    ensures
        match answer {
            Ok(ZlibStatus::StreamEnd(n)) => if n <= buf@.len() {
                r is Ok && r->Ok_0@ == buf@.take(n as int)
            } else {
                r is Err && r->Err_0@ == ReadFailure::DecompressBuf
            },
            Ok(ZlibStatus::Unfinished) => r is Err && r->Err_0@ == ReadFailure::DecompressBuf,
            Ok(ZlibStatus::BufError) => r is Err && r->Err_0@ == ReadFailure::DecompressBuf,
            Err(_) => r is Err && r->Err_0@ == ReadFailure::DecompressFailure,
        },
{
    match answer {
        Ok(ZlibStatus::StreamEnd(n)) => {
            if n <= buf.len() {
                Ok(vstd::slice::slice_subrange(buf, 0, n))
            } else {
                Err(ReadError::DecompressFailed { err: DecompressErr::BufError })
            }
        },
        Ok(ZlibStatus::Unfinished) => Err(
            ReadError::DecompressFailed { err: DecompressErr::BufError },
        ),
        Ok(ZlibStatus::BufError) => Err(
            ReadError::DecompressFailed { err: DecompressErr::BufError },
        ),
        Err(err) => Err(ReadError::DecompressFailed { err: DecompressErr::Failure(err) }),
    }
}

/// Inflates the zlib stream `src` into the front of `target`, with room for
/// `decompressed_len` bytes, and hands out what came of it. `target` is grown
/// to that length where it is shorter.
pub fn decompress<'a>(src: &[u8], target: &'a mut Vec<u8>, decompressed_len: usize) -> (r: Result<
    &'a [u8],
    ReadError,
>)
    ensures
        final(target)@.len() == at_least(old(target)@.len(), decompressed_len as nat),
        match zlib_inflate(src@, decompressed_len as nat) {
            ZlibOutcome::StreamEnd(out) => r is Ok && r->Ok_0@ == out,
            ZlibOutcome::Unfinished => r is Err && r->Err_0@ == ReadFailure::DecompressBuf,
            ZlibOutcome::BufError => r is Err && r->Err_0@ == ReadFailure::DecompressBuf,
            ZlibOutcome::Failure => r is Err && r->Err_0@ == ReadFailure::DecompressFailure,
        },
{
    let decompress_buf = get_sized_buf(target, 0, decompressed_len);
    let answer = inflate_into(src, decompress_buf);
    inflated_packet(answer, target.as_slice())
}

/// Splits a packet into its id and its body.
pub fn split_packet<'a>(packet: &'a [u8]) -> (r: Result<(i32, &'a [u8]), ReadError>)
    ensures
        match split_id(packet@) {
            Ok((id, body)) => r is Ok && r->Ok_0.0 == id && r->Ok_0.1@ == body,
            Err(failure) => r is Err && r->Err_0@ == failure,
        },
{
    match read_varint(packet) {
        Ok((id, width)) => Ok((id, vstd::slice::slice_subrange(packet, width, packet.len()))),
        Err(err) => Err(ReadError::PacketHeaderErr { err }),
    }
}

impl<R> CraftReader<R> {
    /// What holds of every reader: the ready window lies within the buffer
    /// and is the plaintext of what arrived for it, the cipher, if there is
    /// one, decrypts, and the cap is above five.
    pub closed spec fn wf(&self) -> bool {
        &&& self.raw_offset + self.raw_ready <= self.raw_buf.len()
        &&& self@.window_is_plaintext()
        &&& self.max_packet_size > 5
        &&& match self.encryption {
            Some(c) => !c@.encrypting,
            None => true,
        }
    }

    /// What well-formedness means for the view.
    pub proof fn lemma_wf(&self)
        requires
            self.wf(),
        ensures
            self@.raw_offset + self@.window.len() <= self@.buffered,
            self@.window_is_plaintext(),
            self@.max_packet_size > 5,
            self@.cipher is Some ==> !self@.cipher->Some_0.encrypting,
    {
    }

    /// A reader in the handshaking state.
    pub fn wrap(inner: R, direction: PacketDirection) -> (r: Self)
        ensures
            r.wf(),
            r@ == ReaderState::fresh(inner, direction, State::Handshaking),
    {
        Self::wrap_with_state(inner, direction, State::Handshaking)
    }

    /// A reader in the given state: nothing buffered, no compression, no
    /// encryption, and the default cap on frame sizes.
    pub fn wrap_with_state(inner: R, direction: PacketDirection, state: State) -> (r: Self)
        ensures
            r.wf(),
            r@ == ReaderState::fresh(inner, direction, state),
    {
        let r = CraftReader {
            inner,
            raw_buf: Vec::new(),
            raw_ready: 0,
            raw_offset: 0,
            max_packet_size: DEAFULT_MAX_PACKET_SIZE,
            decompress_buf: Vec::new(),
            compression_threshold: None,
            state,
            direction,
            encryption: None,
            arrived: Ghost(Seq::<u8>::empty()),
            clear: Ghost(0),
            entry: Ghost(None),
        };
        proof {
            assert(r@.window =~= Seq::<u8>::empty());
            ReaderState::law_fresh_is_plaintext(inner, direction, state);
        }
        r
    }

    /// Gives the transport back.
    pub fn into_inner(self) -> (inner: R)
        ensures
            inner == self@.transport,
    {
        self.inner
    }

    /// Lends the transport out. Whatever is done to it leaves the rest of the
    /// reader as it was.
    pub fn inner_mut(&mut self) -> (inner: &mut R)
        requires
            old(self).wf(),
        ensures
            *inner == old(self)@.transport,
            final(self).wf(),
            final(self)@ == (ReaderState { transport: *final(inner), ..old(self)@ }),
    {
        &mut self.inner
    }

    /// Sets the state that the ids of the packets read from now on are
    /// tagged with.
    pub fn set_state(&mut self, next: State)
        requires
            old(self).wf(),
        ensures
            final(self).wf(),
            final(self)@ == (ReaderState { state: next, ..old(self)@ }),
    {
        self.state = next;
    }

    /// `None` switches compression off. With `Some`, every frame body starts
    /// with a data length; the number itself only matters to a writer.
    pub fn set_compression_threshold(&mut self, threshold: Option<i32>)
        requires
            old(self).wf(),
        ensures
            final(self).wf(),
            final(self)@ == (ReaderState { compression_threshold: threshold, ..old(self)@ }),
    {
        self.compression_threshold = threshold;
    }

    /// Installs a decryptor for the bytes that are supplied from now on. What
    /// is in the ready window already stays as it is. A reader that has a
    /// decryptor keeps it and answers `AlreadyEnabled`.
    pub fn enable_encryption(&mut self, key: &[u8], iv: &[u8]) -> (r: Result<(), CipherError>)
        requires
            old(self).wf(),
        ensures
            final(self).wf(),
            old(self)@.cipher is Some ==> r == Err::<(), CipherError>(CipherError::AlreadyEnabled)
                && final(self)@ == old(self)@,
            old(self)@.cipher is None ==> match cipher_for(key@, iv@, false) {
                Ok(c) => r is Ok && final(self)@ == old(self)@.encrypted(c),
                Err(e) => r == Err::<(), CipherError>(e) && final(self)@ == old(self)@,
            },
    {
        let r = setup_craft_cipher(&mut self.encryption, key, iv, false);
        if r.is_ok() {
            self.entry = Ghost(slot_state(self.encryption));
            self.clear = Ghost(self@.window.len());
            proof {
                old(self)@.law_encryption_keeps_plaintext(slot_state(self.encryption)->Some_0);
            }
        }
        r
    }

    /// Sets the cap on frame sizes. It has to be above five.
    pub fn set_max_packet_size(&mut self, max_size: usize)
        requires
            old(self).wf(),
            max_size > 5,
        ensures
            final(self).wf(),
            final(self)@ == (ReaderState { max_packet_size: max_size as nat, ..old(self)@ }),
    {
        self.max_packet_size = max_size;
    }

    /// Where in the buffer the ready window starts.
    pub fn raw_offset(&self) -> (n: usize)
        ensures
            n == self@.raw_offset,
    {
        self.raw_offset
    }

    /// How many bytes are in the ready window.
    pub fn raw_ready(&self) -> (n: usize)
        requires
            self.wf(),
        ensures
            n == self@.window.len(),
    {
        self.raw_ready
    }

    /// The cap on frame sizes.
    pub fn max_packet_size(&self) -> (n: usize)
        ensures
            n == self@.max_packet_size,
    {
        self.max_packet_size
    }

    /// The compression threshold, if compression is on.
    pub fn compression_threshold(&self) -> (t: Option<i32>)
        ensures
            t == self@.compression_threshold,
    {
        self.compression_threshold
    }

    /// The state that ids are tagged with.
    pub fn state(&self) -> (s: State)
        ensures
            s == self@.state,
    {
        self.state
    }

    /// The direction that ids are tagged with.
    pub fn direction(&self) -> (d: PacketDirection)
        ensures
            d == self@.direction,
    {
        self.direction
    }

    /// Whether a decryptor is installed.
    pub fn is_encrypted(&self) -> (b: bool)
        ensures
            b == self@.cipher is Some,
    {
        self.encryption.is_some()
    }

    /// Moves the ready window to the front of the buffer. Its contents and
    /// its length stay; with the window at the front already, nothing changes.
    pub fn move_ready_data_to_front(&mut self)
        requires
            old(self).wf(),
        ensures
            final(self).wf(),
            final(self)@ == (ReaderState { raw_offset: 0, ..old(self)@ }),
            old(self)@.raw_offset == 0 ==> final(self)@ == old(self)@,
    {
        if self.raw_ready > 0 && self.raw_offset > 0 {
            let offset: usize = self.raw_offset;
            let ready: usize = self.raw_ready;
            let len: usize = self.raw_buf.len();
            let mut i: usize = 0;
            while i < ready
                invariant
                    i <= ready,
                    offset > 0,
                    offset + ready <= len,
                    len == self.raw_buf@.len(),
                    self.raw_buf@.len() == old(self).raw_buf@.len(),
                    forall|j: int| 0 <= j < i ==> self.raw_buf@[j] == old(self).raw_buf@[offset + j],
                    forall|j: int|
                        i <= j < self.raw_buf@.len() ==> self.raw_buf@[j] == old(self).raw_buf@[j],
                    self.raw_ready == ready,
                    self.raw_offset == offset,
                    self.inner == old(self).inner,
                    self.max_packet_size == old(self).max_packet_size,
                    self.decompress_buf == old(self).decompress_buf,
                    self.compression_threshold == old(self).compression_threshold,
                    self.state == old(self).state,
                    self.direction == old(self).direction,
                    self.encryption == old(self).encryption,
                    self.arrived == old(self).arrived,
                    self.clear == old(self).clear,
                    self.entry == old(self).entry,
                decreases ready - i,
            {
                let byte: u8 = self.raw_buf[offset + i];
                self.raw_buf[i] = byte;
                i += 1;
            }
        }
        self.raw_offset = 0;
        assert(self@.window =~= old(self)@.window);
    }

    /// Grows the buffer to `capacity` bytes, or to the cap on frame sizes where
    /// that is less, after moving the ready window to its front.
    pub fn ensure_buf_capacity(&mut self, capacity: usize)
        requires
            old(self).wf(),
        ensures
            final(self).wf(),
            final(self)@ == (ReaderState {
                raw_offset: 0,
                buffered: at_least(
                    old(self)@.buffered,
                    vstd::math::min(capacity as int, old(self)@.max_packet_size as int) as nat,
                ),
                ..old(self)@
            }),
    {
        let alloc_to: usize = if capacity > self.max_packet_size {
            self.max_packet_size
        } else {
            capacity
        };
        self.move_ready_data_to_front();
        let ghost before = self.raw_buf@;
        let _ = get_sized_buf(&mut self.raw_buf, 0, alloc_to);
        assert(self.raw_buf@ =~= grown(before, alloc_to as nat));
        assert(self@.window =~= old(self)@.window);
    }

    /// Grows the buffer for inflated bodies to `capacity` bytes, or to the cap
    /// on frame sizes where that is less.
    pub fn ensure_compression_buf_capacity(&mut self, capacity: usize)
        requires
            old(self).wf(),
        ensures
            final(self).wf(),
            final(self)@ == (ReaderState {
                scratch: at_least(
                    old(self)@.scratch,
                    vstd::math::min(capacity as int, old(self)@.max_packet_size as int) as nat,
                ),
                ..old(self)@
            }),
    {
        let alloc_to: usize = if capacity > self.max_packet_size {
            self.max_packet_size
        } else {
            capacity
        };
        let ghost before = self.decompress_buf@;
        let _ = get_sized_buf(&mut self.decompress_buf, 0, alloc_to);
        assert(self.decompress_buf@ =~= grown(before, alloc_to as nat));
    }

    /// Takes bytes that have arrived from the transport. They are put behind
    /// the ready window, decrypted there if a decryptor is installed, and only
    /// then counted as ready. Bytes that were ready before are not touched.
    pub fn supply(&mut self, bytes: &[u8])
        requires
            old(self).wf(),
            old(self)@.raw_offset + old(self)@.window.len() + bytes@.len() <= usize::MAX,
        ensures
            final(self).wf(),
            final(self)@ == old(self)@.supplied(bytes@),
    {
        let end: usize = self.raw_offset + self.raw_ready;
        let n: usize = bytes.len();
        let ghost before = self.raw_buf@;
        let target = get_sized_buf(&mut self.raw_buf, end, n);
        fill(target, bytes);
        match &mut self.encryption {
            Some(cipher) => {
                cipher.decrypt(target);
            },
            None => {},
        }
        self.raw_ready = self.raw_ready + n;
        self.arrived = Ghost(self.arrived@ + bytes@);
        proof {
            let plain = ingest(old(self)@.cipher, bytes@);
            let base = grown(before, (end + n) as nat);
            assert(plain.len() == n);
            assert(self.raw_buf@ == base.take(end as int) + plain + base.skip(end + n));
            assert(self@.window =~= old(self)@.window + plain);
            old(self)@.law_supply_keeps_plaintext(bytes@);
        }
    }

    /// Drops the first `n` bytes of the ready window.
    fn consume(&mut self, n: usize)
        requires
            old(self).wf(),
            n <= old(self)@.window.len(),
        ensures
            final(self).wf(),
            final(self)@ == old(self)@.consume(n as nat),
            final(self).raw_buf == old(self).raw_buf,
            final(self).raw_offset == old(self).raw_offset + n,
    {
        proof {
            old(self)@.law_consume_keeps_plaintext(n as nat);
        }
        self.raw_ready = self.raw_ready - n;
        self.raw_offset = self.raw_offset + n;
        self.arrived = Ghost(old(self)@.consume(n as nat).arrived);
        self.clear = Ghost(old(self)@.consume(n as nat).clear);
        self.entry = Ghost(old(self)@.consume(n as nat).entry);
        assert(self@.window =~= old(self)@.window.skip(n as int));
    }

    /// Reads the length prefix at the front of the ready window, without
    /// consuming it: the length that it announces and how many bytes it takes.
    /// Answers `None` where the window ends before the prefix does.
    pub fn read_packet_len(&self) -> (r: ReadResult<(i32, usize)>)
        requires
            self.wf(),
        ensures
            match parse_varint(self@.window) {
                VarintParse::Value { raw, width } => r is Ok && r->Ok_0 == Some(
                    (as_signed(raw), width as usize),
                ) && 1 <= width <= 5 && width <= self@.window.len(),
                VarintParse::Eof => r is Ok && r->Ok_0 is None,
                VarintParse::TooLong => r is Err && r->Err_0@ == ReadFailure::HeaderTooLong(
                    self@.window.take(5),
                ) && self@.window.len() >= 5,
            },
    {
        let window = vstd::slice::slice_subrange(
            self.raw_buf.as_slice(),
            self.raw_offset,
            self.raw_offset + self.raw_ready,
        );
        match read_varint(window) {
            Ok(found) => Ok(Some(found)),
            Err(DeserializeErr::Eof) => Ok(None),
            Err(err) => Err(ReadError::PacketHeaderErr { err }),
        }
    }

    /// Looks at the length prefix at the front of the ready window, after
    /// moving the window to the front of the buffer.
    ///
    /// While the prefix or the frame body is not all there, says how many
    /// bytes to supply and leaves the window alone: one byte at a time for the
    /// prefix, then all that the body lacks. Once the whole frame is there,
    /// steps over the prefix and says how long the body is; the caller then
    /// owes a call of `read_untyped_packet_in_buf`. A prefix that goes on
    /// after five bytes, or that announces more than the cap, is stepped over
    /// and answered with an error; no byte behind it is consumed.
    pub fn read_raw_inner(&mut self) -> (r: Result<ReadProgress, ReadError>)
        requires
            old(self).wf(),
        ensures
            final(self).wf(),
            final(self)@ == old(self)@.after_header(),
            match header_step(old(self)@.window, old(self)@.max_packet_size) {
                HeaderStep::Missing(n) => r is Ok && r->Ok_0 == ReadProgress::Missing(n as usize),
                HeaderStep::Ready { width, size } => r is Ok && r->Ok_0 == ReadProgress::Ready(
                    size as usize,
                ) && size <= final(self)@.window.len(),
                HeaderStep::Failed { consumed, failure } => r is Err && r->Err_0@ == failure,
            },
    {
        self.move_ready_data_to_front();
        match self.read_packet_len() {
            Ok(None) => Ok(ReadProgress::Missing(1)),
            Err(err) => {
                self.consume(5);
                Err(err)
            },
            Ok(Some((len, width))) => {
                let size: usize = size_of_length(len);
                if size > self.max_packet_size {
                    self.consume(width);
                    Err(ReadError::PacketTooLarge { size, max_size: self.max_packet_size })
                } else if self.raw_ready - width < size {
                    Ok(ReadProgress::Missing(size - (self.raw_ready - width)))
                } else {
                    self.consume(width);
                    Ok(ReadProgress::Ready(size))
                }
            },
        }
    }

    /// Takes apart the frame body that stands in the first `size` bytes of the
    /// ready window, and consumes it whatever comes of it.
    ///
    /// With compression on, the body starts with a data length: zero means
    /// that the packet follows as it is, anything else that it follows as a
    /// zlib stream and inflates to at most that many bytes. The packet then
    /// splits into its id, which is tagged with the reader's state and
    /// direction, and its body. The body that is handed out lies in the
    /// reader's buffers and is good until the next call. The answer has the
    /// shape of a read's answer, but it is never `None`.
    pub fn read_untyped_packet_in_buf(&mut self, size: usize) -> (r: ReadResult<(Id, &[u8])>)
        requires
            old(self).wf(),
            size <= old(self)@.window.len(),
        ensures
            final(self).wf(),
            final(self)@ == old(self)@.after_body(size as nat),
            match parse_body(
                old(self)@.window.take(size as int),
                old(self)@.compression(),
                old(self)@.max_packet_size,
            ) {
                Ok((id, body)) => r is Ok && r->Ok_0 is Some && r->Ok_0->Some_0.0 == (Id {
                    id,
                    state: old(self)@.state,
                    direction: old(self)@.direction,
                }) && r->Ok_0->Some_0.1@ == body,
                Err(failure) => r is Err && r->Err_0@ == failure,
            },
    {
        let offset: usize = self.raw_offset;
        self.consume(size);
        let frame = vstd::slice::slice_subrange(self.raw_buf.as_slice(), offset, offset + size);
        proof {
            assert(frame@ =~= old(self)@.window.take(size as int));
            lemma_parse_bounds(frame@, 5);
        }
        let packet: &[u8] = match self.compression_threshold {
            Some(_) => match read_varint(frame) {
                Err(err) => {
                    return Err(ReadError::PacketHeaderErr { err });
                },
                Ok((data_len, width)) => {
                    let rest = vstd::slice::slice_subrange(frame, width, size);
                    assert(rest@ =~= frame@.skip(width as int));
                    let room: usize = size_of_length(data_len);
                    if room == 0 {
                        rest
                    } else if room >= self.max_packet_size {
                        return Err(
                            ReadError::PacketTooLarge { size: room, max_size: self.max_packet_size },
                        );
                    } else {
                        match decompress(rest, &mut self.decompress_buf, room) {
                            Ok(packet) => packet,
                            Err(err) => {
                                return Err(err);
                            },
                        }
                    }
                },
            },
            None => frame,
        };
        match split_packet(packet) {
            Ok((id, body)) => Ok(
                Some((Id { id, state: self.state, direction: self.direction }, body)),
            ),
            Err(err) => Err(err),
        }
    }

    /// Reads the next packet from what has been supplied.
    ///
    /// Answers `None` while the next frame is not all there, and leaves the
    /// ready window as it is, so that the read can be tried again when more
    /// bytes have been supplied. Otherwise the frame is consumed, and the
    /// packet in it or the error that it gave is the answer.
    pub fn read_untyped_packet_inner(&mut self) -> (r: ReadResult<(Id, &[u8])>)
        requires
            old(self).wf(),
        ensures
            final(self).wf(),
            final(self)@ == old(self)@.after_read(),
            match read_step(
                old(self)@.window,
                old(self)@.compression(),
                old(self)@.max_packet_size,
            ) {
                ReadStep::Missing(_) => r is Ok && r->Ok_0 is None,
                ReadStep::Packet { consumed, id, body } => r is Ok && r->Ok_0 is Some
                    && r->Ok_0->Some_0.0 == (Id {
                    id,
                    state: old(self)@.state,
                    direction: old(self)@.direction,
                }) && r->Ok_0->Some_0.1@ == body,
                ReadStep::Failed { consumed, failure } => r is Err && r->Err_0@ == failure,
            },
    {
        match self.read_raw_inner() {
            Ok(ReadProgress::Ready(size)) => {
                proof {
                    let w = old(self)@.window;
                    let h = header_step(w, old(self)@.max_packet_size);
                    assert(self@.window.take(size as int) =~= w.subrange(
                        h->width as int,
                        (h->width + h->Ready_size) as int,
                    ));
                }
                self.read_untyped_packet_in_buf(size)
            },
            Ok(ReadProgress::Missing(_)) => Ok(None),
            Err(err) => Err(err),
        }
    }
}

} // verus!
