//! Variable-length integers: seven payload bits per byte, least significant
//! group first, the top bit of a byte set while another byte follows. A 32-bit
//! value takes one to five bytes.

use crate::protocol::DeserializeErr;
use vstd::prelude::*;

verus! {

/// The most bytes a 32-bit value can take on the wire.
pub const VAR_INT_BUF_SIZE: usize = 5;

/// What stands at the front of a byte string.
pub enum VarintParse {
    /// A complete number of `width` bytes whose payload groups add up to `raw`.
    Value { raw: nat, width: nat },
    /// The bytes end before the number does.
    Eof,
    /// The number goes on beyond the allowed width.
    TooLong,
}

/// The two's-complement bit pattern of `v`, read as a non-negative number.
pub open spec fn as_unsigned(v: i32) -> nat {
    if v >= 0 {
        v as nat
    } else {
        (v + 0x1_0000_0000) as nat
    }
}

/// The signed value of the low 32 bits of `raw`.
pub open spec fn as_signed(raw: nat) -> i32 {
    let low = raw % 0x1_0000_0000;
    if low < 0x8000_0000 {
        low as i32
    } else {
        (low - 0x1_0000_0000) as i32
    }
}

/// 128 to the power `i`: the weight of the payload group at position `i`.
pub open spec fn radix(i: nat) -> nat
    decreases i,
{
    if i == 0 {
        1
    } else {
        128 * radix((i - 1) as nat)
    }
}

/// Reads payload groups from the front of `data`, at most `limit` of them.
pub open spec fn parse_septets(data: Seq<u8>, limit: nat) -> VarintParse
    decreases limit,
{
    if limit == 0 {
        VarintParse::TooLong
    } else if data.len() == 0 {
        VarintParse::Eof
    } else if data[0] < 128 {
        VarintParse::Value { raw: data[0] as nat, width: 1 }
    } else {
        match parse_septets(data.skip(1), (limit - 1) as nat) {
            VarintParse::Value { raw, width } => VarintParse::Value {
                raw: (data[0] - 128) as nat + 128 * raw,
                width: width + 1,
            },
            other => other,
        }
    }
}

/// The number at the front of `data`, of at most five bytes.
pub open spec fn parse_varint(data: Seq<u8>) -> VarintParse {
    parse_septets(data, 5)
}

/// The bytes of the non-negative number `raw`.
pub open spec fn encode_septets(raw: nat) -> Seq<u8>
    decreases raw,
{
    if raw < 128 {
        seq![raw as u8]
    } else {
        seq![(raw % 128 + 128) as u8] + encode_septets(raw / 128)
    }
}

/// The bytes of `v` on the wire.
pub open spec fn encode_varint(v: i32) -> Seq<u8> {
    encode_septets(as_unsigned(v))
}

/// A parse result seen from `offset` bytes earlier, where the bytes before it
/// were continuation bytes carrying `low`, and `weight` is the weight of the
/// first group of the later parse.
spec fn shifted(p: VarintParse, low: nat, weight: nat, offset: nat) -> VarintParse {
    match p {
        VarintParse::Value { raw, width } => VarintParse::Value {
            raw: low + weight * raw,
            width: width + offset,
        },
        other => other,
    }
}

/// A parsed number is at least one byte and at most `limit` bytes wide, lies
/// within the data, and is smaller than the weight after its last group.
pub proof fn lemma_parse_bounds(data: Seq<u8>, limit: nat)
    ensures
        match parse_septets(data, limit) {
            VarintParse::Value { raw, width } => {
                &&& 1 <= width <= limit
                &&& width <= data.len()
                &&& raw < radix(width)
                &&& data[width - 1] < 128
                &&& forall|i: int| 0 <= i < width - 1 ==> data[i] >= 128
            },
            VarintParse::Eof => data.len() < limit && forall|i: int|
                0 <= i < data.len() ==> data[i] >= 128,
            VarintParse::TooLong => data.len() >= limit && forall|i: int|
                0 <= i < limit ==> data[i] >= 128,
        },
    decreases limit,
{
    if limit > 0 && data.len() > 0 && data[0] >= 128 {
        let rest = data.skip(1);
        lemma_parse_bounds(rest, (limit - 1) as nat);
        match parse_septets(rest, (limit - 1) as nat) {
            VarintParse::Value { raw, width } => {
                reveal_with_fuel(radix, 2);
                assert(radix(width + 1) == 128 * radix(width));
                assert forall|i: int| 0 <= i < width implies data[i] >= 128 by {
                    if i > 0 {
                        assert(data[i] == rest[i - 1]);
                    }
                }
                assert(data[width as int] == rest[width - 1]);
            },
            VarintParse::Eof => {
                assert forall|i: int| 0 <= i < data.len() implies data[i] >= 128 by {
                    if i > 0 {
                        assert(data[i] == rest[i - 1]);
                    }
                }
            },
            VarintParse::TooLong => {
                assert forall|i: int| 0 <= i < limit implies data[i] >= 128 by {
                    if i > 0 {
                        assert(data[i] == rest[i - 1]);
                    }
                }
            },
        }
    } else if limit > 0 && data.len() > 0 {
        reveal_with_fuel(radix, 2);
    }
}

/// A number is read from its own bytes alone: what follows them does not
/// matter, and neither does a larger limit.
pub proof fn lemma_parse_local(data: Seq<u8>, limit: nat, other: Seq<u8>, other_limit: nat)
    requires
        parse_septets(data, limit) is Value,
        other.len() >= parse_septets(data, limit)->width,
        other.take(parse_septets(data, limit)->width as int) == data.take(
            parse_septets(data, limit)->width as int,
        ),
        other_limit >= parse_septets(data, limit)->width,
    ensures
        parse_septets(other, other_limit) == parse_septets(data, limit),
    decreases limit,
{
    let width = parse_septets(data, limit)->width;
    lemma_parse_bounds(data, limit);
    assert(other[0] == other.take(width as int)[0]);
    assert(data[0] == data.take(width as int)[0]);
    if data[0] >= 128 {
        let inner = parse_septets(data.skip(1), (limit - 1) as nat);
        assert(inner is Value);
        let w = inner->width;
        assert(other.skip(1).take(w as int) =~= other.take(width as int).skip(1));
        assert(data.skip(1).take(w as int) =~= data.take(width as int).skip(1));
        lemma_parse_local(
            data.skip(1),
            (limit - 1) as nat,
            other.skip(1),
            (other_limit - 1) as nat,
        );
    }
}

/// An encoding of a number below `radix(n)` has at most `n` bytes, and at
/// least one.
pub proof fn lemma_encode_width(raw: nat, n: nat)
    requires
        n >= 1,
        raw < radix(n),
    ensures
        1 <= encode_septets(raw).len() <= n,
    decreases n,
{
    reveal_with_fuel(radix, 2);
    if raw >= 128 {
        assert(n >= 2);
        assert(radix(n) == 128 * radix((n - 1) as nat));
        assert(raw / 128 < radix((n - 1) as nat));
        lemma_encode_width(raw / 128, (n - 1) as nat);
    }
}

/// The weight of the sixth group exceeds every 32-bit pattern.
pub proof fn lemma_radix_five()
    ensures
        radix(0) == 1,
        radix(1) == 128,
        radix(2) == 16384,
        radix(3) == 2097152,
        radix(4) == 268435456,
        radix(5) == 34359738368,
{
    reveal_with_fuel(radix, 6);
}

/// Every 32-bit value takes one to five bytes.
pub proof fn lemma_varint_width(v: i32)
    ensures
        1 <= encode_varint(v).len() <= 5,
{
    lemma_radix_five();
    lemma_encode_width(as_unsigned(v), 5);
}

/// Parsing the encoding of `raw`, followed by anything, gives `raw` back and
/// stops where the encoding ends.
pub proof fn lemma_septets_round_trip(raw: nat, rest: Seq<u8>, limit: nat)
    requires
        encode_septets(raw).len() <= limit,
    ensures
        parse_septets(encode_septets(raw) + rest, limit) == (VarintParse::Value {
            raw,
            width: encode_septets(raw).len(),
        }),
    decreases raw,
{
    let bytes = encode_septets(raw);
    let data = bytes + rest;
    if raw < 128 {
        assert(data[0] == raw as u8);
    } else {
        let head = (raw % 128 + 128) as u8;
        let tail = encode_septets(raw / 128);
        assert(bytes == seq![head] + tail);
        assert(data[0] == head);
        assert(data.skip(1) =~= tail + rest);
        lemma_septets_round_trip(raw / 128, rest, (limit - 1) as nat);
        assert((head - 128) as nat + 128 * (raw / 128) == raw);
    }
}

/// Reading back what was written: the encoding of `v`, followed by anything,
/// parses to `v` and to the encoding's own length.
pub proof fn lemma_varint_round_trip(v: i32, rest: Seq<u8>)
    ensures
        parse_varint(encode_varint(v) + rest) == (VarintParse::Value {
            raw: as_unsigned(v),
            width: encode_varint(v).len(),
        }),
        as_signed(as_unsigned(v)) == v,
{
    lemma_varint_width(v);
    lemma_septets_round_trip(as_unsigned(v), rest, 5);
}

proof fn lemma_shift_step(data: Seq<u8>, i: nat, low: nat, weight: nat)
    requires
        i < 5,
        i < data.len(),
        data[i as int] >= 128,
    ensures
        shifted(parse_septets(data.skip(i as int), (5 - i) as nat), low, weight, i) == shifted(
            parse_septets(data.skip(i as int + 1), (4 - i) as nat),
            low + weight * (data[i as int] - 128) as nat,
            weight * 128,
            i + 1,
        ),
{
    let here = data.skip(i as int);
    assert(here[0] == data[i as int]);
    assert(here.skip(1) =~= data.skip(i as int + 1));
    match parse_septets(data.skip(i as int + 1), (4 - i) as nat) {
        VarintParse::Value { raw, width } => {
            let group = (data[i as int] - 128) as nat;
            assert(low + weight * (group + 128 * raw) == low + weight * group + (weight * 128)
                * raw) by (nonlinear_arith);
        },
        _ => {},
    }
}

/// The signed value of the low 32 bits of `raw`.
fn signed_of(raw: u64) -> (v: i32)
    ensures
        v == as_signed(raw as nat),
{
    let low: u64 = raw % 0x1_0000_0000;
    if low < 0x8000_0000 {
        low as i32
    } else {
        (low as i64 - 0x1_0000_0000) as i32
    }
}

/// The two's-complement bit pattern of `v`.
fn unsigned_of(v: i32) -> (raw: u64)
    ensures
        raw == as_unsigned(v),
        raw < 0x1_0000_0000,
{
    if v >= 0 {
        v as u64
    } else {
        (v as i64 + 0x1_0000_0000) as u64
    }
}

/// Takes a number from the front of `data`.
///
/// Returns the value and how many bytes it took. Fails with `Eof` where the
/// bytes end while a successor is still announced, and with `VarNumTooLong`,
/// holding the first five bytes, where all five announce one.
pub fn read_varint(data: &[u8]) -> (r: Result<(i32, usize), DeserializeErr>)
    ensures
        match parse_varint(data@) {
            VarintParse::Value { raw, width } => r == Ok::<(i32, usize), DeserializeErr>(
                (as_signed(raw), width as usize),
            ) && 1 <= width <= 5 && width <= data@.len(),
            VarintParse::Eof => r == Err::<(i32, usize), DeserializeErr>(DeserializeErr::Eof),
            VarintParse::TooLong => r matches Err(DeserializeErr::VarNumTooLong(seen))
                && seen@ == data@.take(5) && data@.len() >= 5,
        },
{
    let mut low: u64 = 0;
    let mut weight: u64 = 1;
    let mut i: usize = 0;
    proof {
        lemma_radix_five();
        lemma_parse_bounds(data@, 5);
        assert(data@.skip(0) =~= data@);
    }
    loop
        invariant
            i <= 5,
            i <= data@.len(),
            weight == radix(i as nat),
            low < weight,
            parse_varint(data@) == shifted(
                parse_septets(data@.skip(i as int), (5 - i) as nat),
                low as nat,
                weight as nat,
                i as nat,
            ),
        decreases 5 - i,
    {
        proof {
            lemma_radix_five();
        }
        if i == VAR_INT_BUF_SIZE {
            let seen = vstd::slice::slice_to_vec(vstd::slice::slice_subrange(data, 0, 5));
            assert(seen@ =~= data@.take(5));
            return Err(DeserializeErr::VarNumTooLong(seen));
        }
        if i == data.len() {
            return Err(DeserializeErr::Eof);
        }
        let byte: u8 = data[i];
        proof {
            assert(data@.skip(i as int)[0] == byte);
            reveal_with_fuel(radix, 2);
        }
        if byte < 128 {
            assert(byte as u64 * weight < 128 * weight) by (nonlinear_arith)
                requires
                    byte < 128,
                    weight > 0,
            ;
            let raw: u64 = low + byte as u64 * weight;
            assert(raw as nat == low as nat + weight as nat * (byte as nat)) by (nonlinear_arith)
                requires
                    raw == low + byte as u64 * weight,
            ;
            return Ok((signed_of(raw), i + 1));
        }
        proof {
            lemma_shift_step(data@, i as nat, low as nat, weight as nat);
        }
        let group: u64 = (byte - 128) as u64;
        assert(group * weight <= 127 * weight) by (nonlinear_arith)
            requires
                group <= 127,
                weight > 0,
        ;
        assert(weight as nat * (group as nat) == group * weight) by (nonlinear_arith);
        low = low + group * weight;
        weight = weight * 128;
        i = i + 1;
    }
}

/// How many bytes `v` takes on the wire.
pub fn varint_size(v: i32) -> (n: usize)
    ensures
        n == encode_varint(v).len(),
        1 <= n <= 5,
{
    let raw: u64 = unsigned_of(v);
    proof {
        lemma_varint_width(v);
        reveal_with_fuel(encode_septets, 6);
    }
    if raw < 128 {
        1
    } else if raw < 16384 {
        2
    } else if raw < 2097152 {
        3
    } else if raw < 268435456 {
        4
    } else {
        5
    }
}

/// Appends the bytes of `v` to `out`.
pub fn write_varint(v: i32, out: &mut Vec<u8>)
    ensures
        final(out)@ == old(out)@ + encode_varint(v),
{
    let mut raw: u64 = unsigned_of(v);
    assert(out@ =~= old(out)@ + Seq::<u8>::empty());
    while raw >= 128
        invariant
            old(out)@ + encode_varint(v) == out@ + encode_septets(raw as nat),
        decreases raw,
    {
        let byte: u8 = (raw % 128 + 128) as u8;
        proof {
            assert(encode_septets(raw as nat) == seq![byte] + encode_septets(
                (raw / 128) as nat,
            ));
            assert(out@.push(byte) + encode_septets((raw / 128) as nat) =~= out@ + (seq![byte]
                + encode_septets((raw / 128) as nat)));
        }
        out.push(byte);
        raw = raw / 128;
    }
    assert(out@.push(raw as u8) =~= out@ + encode_septets(raw as nat));
    out.push(raw as u8);
}

/// Writes the bytes of `v` over `dst`, which has to be exactly as long as
/// they are.
pub fn put_varint(dst: &mut [u8], v: i32)
    requires
        old(dst)@.len() == encode_varint(v).len(),
    ensures
        final(dst)@ == encode_varint(v),
{
    let mut raw: u64 = unsigned_of(v);
    let mut i: usize = 0;
    assert(dst@.take(0) + encode_varint(v) =~= encode_varint(v));
    while raw >= 128
        invariant
            dst@.len() == encode_varint(v).len(),
            i + encode_septets(raw as nat).len() == dst@.len(),
            dst@.take(i as int) + encode_septets(raw as nat) == encode_varint(v),
        decreases raw,
    {
        let byte: u8 = (raw % 128 + 128) as u8;
        let ghost before = dst@;
        assert(encode_septets(raw as nat) == seq![byte] + encode_septets((raw / 128) as nat));
        dst[i] = byte;
        proof {
            assert(dst@.take(i + 1) =~= before.take(i as int).push(byte));
            assert(before.take(i as int).push(byte) + encode_septets((raw / 128) as nat)
                =~= before.take(i as int) + (seq![byte] + encode_septets((raw / 128) as nat)));
        }
        raw = raw / 128;
        i = i + 1;
    }
    let ghost before = dst@;
    dst[i] = raw as u8;
    assert(dst@ =~= before.take(i as int) + encode_septets(raw as nat));
}

} // verus!
