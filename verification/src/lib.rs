//! Framing, encryption and compression core of the Minecraft Java Edition
//! wire protocol.
//!
//! The crate turns a byte stream into `(Id, body)` packets and back. The wire
//! format is given as specification functions in [`frame`], [`varint`] and
//! [`cfb8`], and the executable reader and writer are proved to compute exactly
//! those functions. Three things are taken on trust, each behind one small
//! function: the AES block function of the `aes` crate, and the inflater and the
//! deflater of the `flate2` crate.
//!
//! The transport itself is never touched from here. A [`reader::CraftReader`]
//! says how many bytes it is missing and is handed them with
//! [`reader::CraftReader::supply`]; a [`writer::CraftWriter`] hands out the bytes
//! that have to be sent.

pub mod cfb8;
pub mod connection;
pub mod frame;
pub mod protocol;
pub mod reader;
pub mod util;
pub mod varint;
pub mod writer;
pub mod zlib;

pub use crate::cfb8::{CipherComponent, CipherError, CraftCipher};
pub use crate::connection::CraftConnection;
pub use crate::protocol::{Id, PacketDirection, State};
pub use crate::reader::{
    CraftReader, DecompressErr, ReadError, ReadProgress, ReadResult, DEAFULT_MAX_PACKET_SIZE,
};
pub use crate::writer::{CompressErr, CraftWriter, WriteError, WriteResult};
