//! The growable byte buffer that reader and writer work in.

use vstd::prelude::*;

verus! {

/// `bytes`, filled up with zeroes to the length `len` where it is shorter.
pub open spec fn grown(bytes: Seq<u8>, len: nat) -> Seq<u8> {
    if bytes.len() >= len {
        bytes
    } else {
        bytes + Seq::new((len - bytes.len()) as nat, |i: int| 0u8)
    }
}

/// The larger of two lengths.
pub open spec fn at_least(len: nat, wanted: nat) -> nat {
    if len >= wanted {
        len
    } else {
        wanted
    }
}

/// Hands out the `size` bytes of `buf` that start at `offset`, for writing.
///
/// A buffer that does not reach that far is first made longer with zeroes. It
/// is never made shorter, and what it held stays where it was. When the
/// caller is done, the buffer holds what was written to the slice, between
/// what stood before it and after it.
pub fn get_sized_buf(buf: &mut Vec<u8>, offset: usize, size: usize) -> (target: &mut [u8])
    requires
        offset + size <= usize::MAX,
    ensures
        target@ == grown(old(buf)@, (offset + size) as nat).subrange(offset as int, offset + size),
        final(buf)@ == grown(old(buf)@, (offset + size) as nat).take(offset as int) + final(target)@
            + grown(old(buf)@, (offset + size) as nat).skip(offset + size),
{
    let end: usize = offset + size;
    if buf.len() < end {
        buf.resize(end, 0u8);
    }
    assert(buf@ =~= grown(old(buf)@, end as nat));
    let whole = buf.as_mut_slice();
    let (_front, tail) = whole.split_at_mut(offset);
    let (target, _back) = tail.split_at_mut(size);
    assert(target@ =~= grown(old(buf)@, end as nat).subrange(offset as int, offset + size));
    assert(_front@ =~= grown(old(buf)@, end as nat).take(offset as int));
    assert(_back@ =~= grown(old(buf)@, end as nat).skip(offset + size));
    target
}

/// Copies `src` over `dst`, which has to be as long.
pub fn fill(dst: &mut [u8], src: &[u8])
    requires
        old(dst)@.len() == src@.len(),
    ensures
        final(dst)@ == src@,
{
    let n: usize = src.len();
    let mut i: usize = 0;
    while i < n
        invariant
            i <= n,
            n == src@.len(),
            dst@.len() == n,
            forall|j: int| 0 <= j < i ==> dst@[j] == src@[j],
        decreases n - i,
    {
        dst[i] = src[i];
        i += 1;
    }
    assert(dst@ =~= src@);
}

} // verus!
