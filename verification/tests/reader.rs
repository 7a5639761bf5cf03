use craftio::cfb8::{CipherComponent, CipherError, CraftCipher};
use craftio::protocol::{DeserializeErr, Id, PacketDirection, State};
use craftio::reader::{
    decompress, inflated_packet, split_packet, CraftReader, DecompressErr, ReadError, ReadProgress,
    DEAFULT_MAX_PACKET_SIZE,
};
use craftio::zlib::ZlibStatus;

fn reader() -> CraftReader<()> {
    CraftReader::wrap((), PacketDirection::ServerBound)
}

fn read_owned(r: &mut CraftReader<()>) -> Result<Option<(Id, Vec<u8>)>, ReadError> {
    r.read_untyped_packet_inner().map(|found| found.map(|(id, body)| (id, body.to_vec())))
}

fn id(n: i32) -> Id {
    Id { id: n, state: State::Handshaking, direction: PacketDirection::ServerBound }
}

fn zlib(data: &[u8]) -> Vec<u8> {
    let mut out = vec![0u8; data.len() + 64];
    let mut stream = flate2::Compress::new(flate2::Compression::default(), true);
    let status = stream.compress(data, &mut out, flate2::FlushCompress::Finish).unwrap();
    assert_eq!(status, flate2::Status::StreamEnd);
    out.truncate(stream.total_out() as usize);
    out
}

#[test]
fn a_new_reader_has_the_defaults() {
    let r = CraftReader::wrap(7u8, PacketDirection::ClientBound);
    assert_eq!(r.state(), State::Handshaking);
    assert_eq!(r.direction(), PacketDirection::ClientBound);
    assert_eq!(r.compression_threshold(), None);
    assert!(!r.is_encrypted());
    assert_eq!(r.max_packet_size(), 32_000_000);
    assert_eq!(DEAFULT_MAX_PACKET_SIZE, 32_000_000);
    assert_eq!(r.raw_offset(), 0);
    assert_eq!(r.raw_ready(), 0);
    assert_eq!(r.into_inner(), 7u8);

    let r = CraftReader::wrap_with_state((), PacketDirection::ServerBound, State::Play);
    assert_eq!(r.state(), State::Play);
    assert_eq!(r.direction(), PacketDirection::ServerBound);
}

#[test]
fn the_transport_can_be_reached() {
    let mut r = CraftReader::wrap(vec![1u8], PacketDirection::ClientBound);
    r.supply(&[0x02, 0x00]);
    r.inner_mut().push(2);
    assert_eq!(r.raw_ready(), 2);
    assert_eq!(r.into_inner(), vec![1u8, 2]);
}

#[test]
fn plain_single_packet() {
    let mut r = reader();
    r.supply(&[0x03, 0x00, 0xde, 0xad]);
    assert_eq!(read_owned(&mut r).unwrap(), Some((id(0), vec![0xde, 0xad])));
    assert_eq!(r.raw_offset(), 4);
    assert_eq!(r.raw_ready(), 0);
    assert_eq!(read_owned(&mut r).unwrap(), None);
}

#[test]
fn two_packets_in_one_buffer() {
    let mut r = reader();
    r.supply(&[0x02, 0x00, 0xaa, 0x02, 0x00, 0xbb]);
    assert_eq!(read_owned(&mut r).unwrap(), Some((id(0), vec![0xaa])));
    assert_eq!(r.raw_offset(), 3);
    assert_eq!(r.raw_ready(), 3);
    assert_eq!(read_owned(&mut r).unwrap(), Some((id(0), vec![0xbb])));
    assert_eq!(r.raw_offset(), 3);
    assert_eq!(r.raw_ready(), 0);
    assert_eq!(read_owned(&mut r).unwrap(), None);
}

#[test]
fn the_id_carries_state_and_direction() {
    let mut r = CraftReader::wrap_with_state((), PacketDirection::ClientBound, State::Login);
    r.supply(&[0x02, 0x05, 0x01, 0x03, 0xac, 0x02, 0x09]);
    assert_eq!(
        read_owned(&mut r).unwrap(),
        Some((
            Id { id: 5, state: State::Login, direction: PacketDirection::ClientBound },
            vec![0x01]
        ))
    );
    r.set_state(State::Play);
    assert_eq!(
        read_owned(&mut r).unwrap(),
        Some((
            Id { id: 300, state: State::Play, direction: PacketDirection::ClientBound },
            vec![0x09]
        ))
    );
}

#[test]
fn compression_below_threshold() {
    let mut r = reader();
    r.set_compression_threshold(Some(256));
    r.supply(&[0x03, 0x00, 0x01, 0x42]);
    assert_eq!(read_owned(&mut r).unwrap(), Some((id(1), vec![0x42])));
}

#[test]
fn compression_above_threshold() {
    let mut inner = vec![0x01];
    inner.extend_from_slice(&[0u8; 10]);
    let deflated = zlib(&inner);
    let mut wire = vec![(deflated.len() + 1) as u8, 11];
    wire.extend_from_slice(&deflated);

    let mut r = reader();
    r.set_compression_threshold(Some(2));
    r.supply(&wire);
    assert_eq!(read_owned(&mut r).unwrap(), Some((id(1), vec![0u8; 10])));
    assert_eq!(r.raw_ready(), 0);
}

#[test]
fn inflated_body_may_be_read_twice_in_a_row() {
    let first = zlib(&[0x01, 1, 2, 3, 4, 5, 6, 7, 8]);
    let second = zlib(&[0x02, 9, 9]);
    let mut wire = vec![(first.len() + 1) as u8, 9];
    wire.extend_from_slice(&first);
    wire.push((second.len() + 1) as u8);
    wire.push(3);
    wire.extend_from_slice(&second);

    let mut r = reader();
    r.set_compression_threshold(Some(0));
    r.supply(&wire);
    assert_eq!(read_owned(&mut r).unwrap(), Some((id(1), vec![1, 2, 3, 4, 5, 6, 7, 8])));
    assert_eq!(read_owned(&mut r).unwrap(), Some((id(2), vec![9, 9])));
}

#[test]
fn end_of_input_mid_packet() {
    let mut r = reader();
    r.supply(&[0x05, 0x00, 0xaa]);
    assert_eq!(read_owned(&mut r).unwrap(), None);
    assert_eq!(r.raw_ready(), 3);
    r.supply(&[0xbb, 0xcc]);
    assert_eq!(read_owned(&mut r).unwrap(), None);
    assert_eq!(r.raw_ready(), 5);
    r.supply(&[0x00]);
    assert_eq!(read_owned(&mut r).unwrap(), Some((id(0), vec![0xaa, 0xbb, 0xcc, 0x00])));
    assert_eq!(r.raw_ready(), 0);
}

#[test]
fn end_of_input_inside_the_length_prefix() {
    let mut r = reader();
    assert_eq!(r.read_raw_inner().unwrap(), ReadProgress::Missing(1));
    r.supply(&[0x81]);
    assert_eq!(read_owned(&mut r).unwrap(), None);
    assert_eq!(r.read_raw_inner().unwrap(), ReadProgress::Missing(1));
    r.supply(&[0x01]);
    assert_eq!(r.read_raw_inner().unwrap(), ReadProgress::Missing(129));
    assert_eq!(r.raw_ready(), 2);
    let mut rest = vec![0x07];
    rest.extend_from_slice(&[0x11; 128]);
    r.supply(&rest);
    assert_eq!(read_owned(&mut r).unwrap(), Some((id(7), vec![0x11; 128])));
}

#[test]
fn progress_says_what_is_missing() {
    let mut r = reader();
    r.supply(&[0x05, 0x00, 0xaa]);
    assert_eq!(r.read_raw_inner().unwrap(), ReadProgress::Missing(3));
    r.supply(&[0xbb, 0xcc, 0xdd, 0x01, 0x09]);
    assert_eq!(r.read_raw_inner().unwrap(), ReadProgress::Ready(5));
    assert_eq!(r.raw_offset(), 1);
    assert_eq!(r.raw_ready(), 7);
    let (found, body) = r.read_untyped_packet_in_buf(5).unwrap().unwrap();
    assert_eq!(found, id(0));
    assert_eq!(body, &[0xaa, 0xbb, 0xcc, 0xdd]);
    assert_eq!(r.raw_offset(), 6);
    assert_eq!(r.raw_ready(), 2);
}

#[test]
fn too_large() {
    // 40_000_000 as a length prefix.
    let mut r = reader();
    r.supply(&[0x80, 0xb4, 0x89, 0x13, 0x00, 0x01]);
    match read_owned(&mut r) {
        Err(ReadError::PacketTooLarge { size, max_size }) => {
            assert_eq!(size, 40_000_000);
            assert_eq!(max_size, 32_000_000);
        }
        other => panic!("unexpected: {:?}", other),
    }
    // Only the prefix is gone.
    assert_eq!(r.raw_offset(), 4);
    assert_eq!(r.raw_ready(), 2);
}

#[test]
fn size_cap_is_inclusive() {
    let mut r = reader();
    r.set_max_packet_size(6);
    assert_eq!(r.max_packet_size(), 6);
    r.supply(&[0x06, 0x00, 1, 2, 3, 4, 5]);
    assert_eq!(read_owned(&mut r).unwrap(), Some((id(0), vec![1, 2, 3, 4, 5])));
    r.supply(&[0x07, 0x00, 1, 2, 3, 4, 5, 6]);
    match read_owned(&mut r) {
        Err(ReadError::PacketTooLarge { size: 7, max_size: 6 }) => {}
        other => panic!("unexpected: {:?}", other),
    }
    assert_eq!(r.raw_ready(), 7);
}

#[test]
fn negative_length_is_too_large() {
    let mut r = reader();
    r.supply(&[0xff, 0xff, 0xff, 0xff, 0x0f]);
    match read_owned(&mut r) {
        Err(ReadError::PacketTooLarge { size, max_size: 32_000_000 }) => {
            assert_eq!(size, usize::MAX);
        }
        other => panic!("unexpected: {:?}", other),
    }
}

#[test]
fn overlong_length_prefix() {
    let mut r = reader();
    r.supply(&[0x80, 0x80, 0x80, 0x80, 0x80, 0x80]);
    match read_owned(&mut r) {
        Err(ReadError::PacketHeaderErr { err: DeserializeErr::VarNumTooLong(seen) }) => {
            assert_eq!(seen, vec![0x80; 5]);
        }
        other => panic!("unexpected: {:?}", other),
    }
    assert_eq!(r.raw_offset(), 5);
    assert_eq!(r.raw_ready(), 1);
}

#[test]
fn empty_frame_has_no_id() {
    let mut r = reader();
    r.supply(&[0x00]);
    match read_owned(&mut r) {
        Err(ReadError::PacketHeaderErr { err: DeserializeErr::Eof }) => {}
        other => panic!("unexpected: {:?}", other),
    }
    assert_eq!(r.raw_ready(), 0);
}

#[test]
fn id_cut_off_by_the_frame() {
    let mut r = reader();
    r.supply(&[0x01, 0x80, 0x01]);
    match read_owned(&mut r) {
        Err(ReadError::PacketHeaderErr { err: DeserializeErr::Eof }) => {}
        other => panic!("unexpected: {:?}", other),
    }
    assert_eq!(r.raw_ready(), 1);
}

#[test]
fn data_length_at_the_cap_is_too_large() {
    let mut r = reader();
    r.set_compression_threshold(Some(0));
    r.set_max_packet_size(20);
    r.supply(&[0x03, 20, 0x00, 0x00]);
    match read_owned(&mut r) {
        Err(ReadError::PacketTooLarge { size: 20, max_size: 20 }) => {}
        other => panic!("unexpected: {:?}", other),
    }
    assert_eq!(r.raw_ready(), 0);
}

#[test]
fn garbage_does_not_inflate() {
    let mut r = reader();
    r.set_compression_threshold(Some(0));
    r.supply(&[0x05, 0x04, 0xde, 0xad, 0xbe, 0xef]);
    match read_owned(&mut r) {
        Err(ReadError::DecompressFailed { err: DecompressErr::Failure(_) }) => {}
        other => panic!("unexpected: {:?}", other),
    }
}

#[test]
fn announced_length_too_short_for_the_stream() {
    let deflated = zlib(&[0x01, 1, 2, 3, 4, 5, 6, 7, 8, 9]);
    let mut wire = vec![(deflated.len() + 1) as u8, 4];
    wire.extend_from_slice(&deflated);
    let mut r = reader();
    r.set_compression_threshold(Some(0));
    r.supply(&wire);
    match read_owned(&mut r) {
        Err(ReadError::DecompressFailed { err: DecompressErr::BufError }) => {}
        other => panic!("unexpected: {:?}", other),
    }
}

#[test]
fn truncated_stream_does_not_inflate() {
    let deflated = zlib(&[0x01, 1, 2, 3, 4, 5, 6, 7, 8, 9]);
    let cut = &deflated[..deflated.len() - 5];
    let mut wire = vec![(cut.len() + 1) as u8, 10];
    wire.extend_from_slice(cut);
    let mut r = reader();
    r.set_compression_threshold(Some(0));
    r.supply(&wire);
    match read_owned(&mut r) {
        Err(ReadError::DecompressFailed { err: DecompressErr::BufError }) => {}
        other => panic!("unexpected: {:?}", other),
    }
}

#[test]
fn encrypted_single_packet() {
    let mut wire = [0x03, 0x00, 0xde, 0xad];
    CraftCipher::new(&[0u8; 16], &[0u8; 16], true).unwrap().encrypt(&mut wire);
    assert_ne!(wire, [0x03, 0x00, 0xde, 0xad]);

    let mut r = reader();
    assert_eq!(r.enable_encryption(&[0u8; 16], &[0u8; 16]), Ok(()));
    assert!(r.is_encrypted());
    r.supply(&wire);
    assert_eq!(read_owned(&mut r).unwrap(), Some((id(0), vec![0xde, 0xad])));
}

#[test]
fn encryption_cannot_be_enabled_twice() {
    let mut r = reader();
    assert_eq!(r.enable_encryption(&[1u8; 16], &[2u8; 16]), Ok(()));
    assert_eq!(r.enable_encryption(&[1u8; 16], &[2u8; 16]), Err(CipherError::AlreadyEnabled));
    assert_eq!(r.enable_encryption(&[], &[]), Err(CipherError::AlreadyEnabled));
    assert!(r.is_encrypted());
}

#[test]
fn bad_key_leaves_the_reader_unencrypted() {
    let mut r = reader();
    assert_eq!(
        r.enable_encryption(&[1u8; 8], &[2u8; 16]),
        Err(CipherError::BadSize { size: 8, component: CipherComponent::Key })
    );
    assert!(!r.is_encrypted());
    r.supply(&[0x02, 0x00, 0xaa]);
    assert_eq!(read_owned(&mut r).unwrap(), Some((id(0), vec![0xaa])));
}

#[test]
fn ready_bytes_are_never_decrypted_again() {
    let plain: Vec<u8> = vec![0x02, 0x00, 0xaa, 0x03, 0x01, 0xbb, 0xcc, 0x02, 0x02, 0xdd];
    let mut wire = plain.clone();
    CraftCipher::new(&[3u8; 16], &[4u8; 16], true).unwrap().encrypt(&mut wire);

    let mut r = reader();
    r.enable_encryption(&[3u8; 16], &[4u8; 16]).unwrap();
    r.supply(&wire);
    assert_eq!(read_owned(&mut r).unwrap(), Some((id(0), vec![0xaa])));
    r.move_ready_data_to_front();
    r.ensure_buf_capacity(100);
    assert_eq!(read_owned(&mut r).unwrap(), Some((id(1), vec![0xbb, 0xcc])));
    assert_eq!(read_owned(&mut r).unwrap(), Some((id(2), vec![0xdd])));
    assert_eq!(read_owned(&mut r).unwrap(), None);
}

#[test]
fn encryption_starts_where_it_is_enabled() {
    let mut second = [0x02, 0x01, 0xbb];
    CraftCipher::new(&[5u8; 16], &[6u8; 16], true).unwrap().encrypt(&mut second);

    let mut r = reader();
    r.supply(&[0x02, 0x00, 0xaa]);
    r.enable_encryption(&[5u8; 16], &[6u8; 16]).unwrap();
    r.supply(&second);
    assert_eq!(read_owned(&mut r).unwrap(), Some((id(0), vec![0xaa])));
    assert_eq!(read_owned(&mut r).unwrap(), Some((id(1), vec![0xbb])));
}

#[test]
fn compaction_keeps_the_window() {
    let mut r = reader();
    r.supply(&[0x02, 0x00, 0xaa, 0x02, 0x00, 0xbb]);
    r.move_ready_data_to_front();
    assert_eq!(r.raw_offset(), 0);
    assert_eq!(r.raw_ready(), 6);
    assert_eq!(read_owned(&mut r).unwrap(), Some((id(0), vec![0xaa])));
    assert_eq!((r.raw_offset(), r.raw_ready()), (3, 3));
    r.move_ready_data_to_front();
    assert_eq!((r.raw_offset(), r.raw_ready()), (0, 3));
    r.move_ready_data_to_front();
    assert_eq!((r.raw_offset(), r.raw_ready()), (0, 3));
    assert_eq!(read_owned(&mut r).unwrap(), Some((id(0), vec![0xbb])));
}

#[test]
fn compaction_of_an_empty_window() {
    let mut r = reader();
    r.supply(&[0x02, 0x00, 0xaa]);
    assert_eq!(read_owned(&mut r).unwrap(), Some((id(0), vec![0xaa])));
    assert_eq!((r.raw_offset(), r.raw_ready()), (3, 0));
    r.move_ready_data_to_front();
    assert_eq!((r.raw_offset(), r.raw_ready()), (0, 0));
}

#[test]
fn capacity_can_be_asked_for_at_any_time() {
    let mut r = reader();
    r.ensure_buf_capacity(64);
    r.ensure_compression_buf_capacity(64);
    r.supply(&[0x02, 0x00, 0xaa, 0x02]);
    assert_eq!(read_owned(&mut r).unwrap(), Some((id(0), vec![0xaa])));
    r.ensure_buf_capacity(usize::MAX);
    assert_eq!((r.raw_offset(), r.raw_ready()), (0, 1));
    r.supply(&[0x00, 0xbb]);
    assert_eq!(read_owned(&mut r).unwrap(), Some((id(0), vec![0xbb])));
}

#[test]
fn split_packet_takes_the_id_off() {
    let (n, body) = split_packet(&[0xac, 0x02, 0x01, 0x02]).unwrap();
    assert_eq!(n, 300);
    assert_eq!(body, &[0x01, 0x02]);
    let (n, body) = split_packet(&[0x00]).unwrap();
    assert_eq!(n, 0);
    assert!(body.is_empty());
    assert!(matches!(
        split_packet(&[]),
        Err(ReadError::PacketHeaderErr { err: DeserializeErr::Eof })
    ));
    assert!(matches!(
        split_packet(&[0x80; 7]),
        Err(ReadError::PacketHeaderErr { err: DeserializeErr::VarNumTooLong(_) })
    ));
}

#[test]
fn decompress_inflates_into_the_target() {
    let data: Vec<u8> = (0..200u8).collect();
    let deflated = zlib(&data);
    assert_ne!(deflated, data);
    let mut target = vec![0xffu8; 3];
    assert_eq!(decompress(&deflated, &mut target, 200).unwrap(), &data[..]);
    assert_eq!(target.len(), 200);
}

#[test]
fn decompress_never_shrinks_the_target() {
    let deflated = zlib(&[1, 2, 3]);
    let mut target = vec![0xffu8; 50];
    assert_eq!(decompress(&deflated, &mut target, 10).unwrap(), &[1, 2, 3]);
    assert_eq!(target.len(), 50);
    assert_eq!(&target[..3], &[1, 2, 3]);
}

#[test]
fn decompress_reports_missing_room_and_bad_input() {
    let deflated = zlib(&[1, 2, 3, 4, 5]);
    let mut target = Vec::new();
    assert!(matches!(
        decompress(&deflated, &mut target, 4),
        Err(ReadError::DecompressFailed { err: DecompressErr::BufError })
    ));
    assert!(matches!(
        decompress(&[0xde, 0xad, 0xbe, 0xef], &mut target, 4),
        Err(ReadError::DecompressFailed { err: DecompressErr::Failure(_) })
    ));
    assert!(matches!(
        decompress(&[], &mut target, 4),
        Err(ReadError::DecompressFailed { err: DecompressErr::BufError })
    ));
}

#[test]
fn inflated_packet_reads_the_answer() {
    let buf = [1u8, 2, 3, 4];
    assert_eq!(inflated_packet(Ok(ZlibStatus::StreamEnd(3)), &buf).unwrap(), &[1, 2, 3]);
    assert_eq!(inflated_packet(Ok(ZlibStatus::StreamEnd(0)), &buf).unwrap(), &[] as &[u8]);
    assert!(matches!(
        inflated_packet(Ok(ZlibStatus::StreamEnd(5)), &buf),
        Err(ReadError::DecompressFailed { err: DecompressErr::BufError })
    ));
    assert!(matches!(
        inflated_packet(Ok(ZlibStatus::Unfinished), &buf),
        Err(ReadError::DecompressFailed { err: DecompressErr::BufError })
    ));
    assert!(matches!(
        inflated_packet(Ok(ZlibStatus::BufError), &buf),
        Err(ReadError::DecompressFailed { err: DecompressErr::BufError })
    ));
    let mut out = [0u8; 8];
    let failure = flate2::Decompress::new(true)
        .decompress(&[0xde, 0xad, 0xbe, 0xef], &mut out, flate2::FlushDecompress::Finish)
        .unwrap_err();
    assert!(matches!(
        inflated_packet(Err(failure), &buf),
        Err(ReadError::DecompressFailed { err: DecompressErr::Failure(_) })
    ));
}

#[test]
fn the_length_prefix_can_be_looked_at() {
    let mut r = reader();
    assert_eq!(r.read_packet_len().unwrap(), None);
    r.supply(&[0xac]);
    assert_eq!(r.read_packet_len().unwrap(), None);
    r.supply(&[0x02, 0x09]);
    assert_eq!(r.read_packet_len().unwrap(), Some((300, 2)));
    // Looking does not consume.
    assert_eq!(r.raw_ready(), 3);
    assert_eq!(r.read_packet_len().unwrap(), Some((300, 2)));

    let mut r = reader();
    r.supply(&[0xff; 5]);
    assert!(matches!(
        r.read_packet_len(),
        Err(ReadError::PacketHeaderErr { err: DeserializeErr::VarNumTooLong(_) })
    ));
}
