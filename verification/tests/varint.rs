use craftio::protocol::DeserializeErr;
use craftio::varint::{put_varint, read_varint, varint_size, write_varint, VAR_INT_BUF_SIZE};

fn encoded(v: i32) -> Vec<u8> {
    let mut out = Vec::new();
    write_varint(v, &mut out);
    out
}

#[test]
fn encodes_known_values() {
    assert_eq!(encoded(0), vec![0x00]);
    assert_eq!(encoded(1), vec![0x01]);
    assert_eq!(encoded(2), vec![0x02]);
    assert_eq!(encoded(127), vec![0x7f]);
    assert_eq!(encoded(128), vec![0x80, 0x01]);
    assert_eq!(encoded(255), vec![0xff, 0x01]);
    assert_eq!(encoded(25565), vec![0xdd, 0xc7, 0x01]);
    assert_eq!(encoded(2097151), vec![0xff, 0xff, 0x7f]);
    assert_eq!(encoded(2147483647), vec![0xff, 0xff, 0xff, 0xff, 0x07]);
    assert_eq!(encoded(-1), vec![0xff, 0xff, 0xff, 0xff, 0x0f]);
    assert_eq!(encoded(-2147483648), vec![0x80, 0x80, 0x80, 0x80, 0x08]);
}

#[test]
fn write_varint_appends() {
    let mut out = vec![0xaa, 0xbb];
    write_varint(300, &mut out);
    assert_eq!(out, vec![0xaa, 0xbb, 0xac, 0x02]);
}

#[test]
fn decodes_known_values() {
    assert_eq!(read_varint(&[0x00]), Ok((0, 1)));
    assert_eq!(read_varint(&[0x7f]), Ok((127, 1)));
    assert_eq!(read_varint(&[0x80, 0x01]), Ok((128, 2)));
    assert_eq!(read_varint(&[0xdd, 0xc7, 0x01]), Ok((25565, 3)));
    assert_eq!(read_varint(&[0xff, 0xff, 0xff, 0xff, 0x07]), Ok((2147483647, 5)));
    assert_eq!(read_varint(&[0xff, 0xff, 0xff, 0xff, 0x0f]), Ok((-1, 5)));
    assert_eq!(read_varint(&[0x80, 0x80, 0x80, 0x80, 0x08]), Ok((-2147483648, 5)));
}

#[test]
fn decoding_stops_at_the_end_of_the_number() {
    assert_eq!(read_varint(&[0x05, 0xff, 0xff]), Ok((5, 1)));
    assert_eq!(read_varint(&[0x80, 0x01, 0x80]), Ok((128, 2)));
}

#[test]
fn overlong_encodings_of_small_values_are_read() {
    assert_eq!(read_varint(&[0x80, 0x00]), Ok((0, 2)));
    assert_eq!(read_varint(&[0x81, 0x80, 0x80, 0x80, 0x00]), Ok((1, 5)));
}

#[test]
fn fifth_byte_beyond_32_bits_wraps() {
    // The fifth byte carries seven bits, of which only four fit.
    assert_eq!(read_varint(&[0x80, 0x80, 0x80, 0x80, 0x10]), Ok((0, 5)));
    assert_eq!(read_varint(&[0xff, 0xff, 0xff, 0xff, 0x7f]), Ok((-1, 5)));
}

#[test]
fn decoding_reports_end_of_input() {
    assert_eq!(read_varint(&[]), Err(DeserializeErr::Eof));
    assert_eq!(read_varint(&[0x80]), Err(DeserializeErr::Eof));
    assert_eq!(read_varint(&[0xff, 0xff, 0xff, 0xff]), Err(DeserializeErr::Eof));
}

#[test]
fn five_continuation_bytes_are_too_long() {
    assert_eq!(
        read_varint(&[0x80, 0x81, 0x82, 0x83, 0x84]),
        Err(DeserializeErr::VarNumTooLong(vec![0x80, 0x81, 0x82, 0x83, 0x84]))
    );
}

#[test]
fn six_continuation_bytes_are_too_long() {
    assert_eq!(
        read_varint(&[0xff, 0xff, 0xff, 0xff, 0xff, 0xff]),
        Err(DeserializeErr::VarNumTooLong(vec![0xff, 0xff, 0xff, 0xff, 0xff]))
    );
}

#[test]
fn sizes_match_encodings() {
    let values = [
        0,
        1,
        127,
        128,
        16383,
        16384,
        2097151,
        2097152,
        268435455,
        268435456,
        i32::MAX,
        -1,
        i32::MIN,
    ];
    for v in values {
        let bytes = encoded(v);
        assert_eq!(varint_size(v), bytes.len());
        assert!(bytes.len() >= 1 && bytes.len() <= VAR_INT_BUF_SIZE);
    }
}

#[test]
fn put_varint_fills_the_slice() {
    let mut buf = [0u8; 3];
    put_varint(&mut buf, 25565);
    assert_eq!(buf, [0xdd, 0xc7, 0x01]);
    let mut one = [0xffu8; 1];
    put_varint(&mut one, 0);
    assert_eq!(one, [0x00]);
}

#[test]
fn round_trip_over_many_values() {
    let mut v: i32 = i32::MIN;
    loop {
        let bytes = encoded(v);
        assert_eq!(read_varint(&bytes), Ok((v, bytes.len())));
        let mut followed = bytes.clone();
        followed.extend_from_slice(&[0xff, 0x00]);
        assert_eq!(read_varint(&followed), Ok((v, bytes.len())));
        match v.checked_add(65521 * 257) {
            Some(next) => v = next,
            None => break,
        }
    }
}
