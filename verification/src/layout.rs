//! The fixed numbers of the container format and the big-endian length field.

use vstd::prelude::*;

verus! {

/// What the length field of an entry counts on top of its payload.
pub const HEADER_LEN: u32 = 0x10;

/// Width of the name field of an entry.
pub const NAME_LEN: usize = 12;

/// The length value that marks the end of an archive.
pub const END_MARK: u32 = 0xFFFF_FFFF;

/// The byte that fills an archive up to its minimum size.
pub const FILL_BYTE: u8 = 0xFF;

/// The four bytes that store `v`, most significant first.
pub open spec fn be32(v: u32) -> Seq<u8> {
    seq![
        (v / 0x100_0000) as u8,
        (v / 0x1_0000 % 0x100) as u8,
        (v / 0x100 % 0x100) as u8,
        (v % 0x100) as u8,
    ]
}

/// The number that the first four bytes of `bytes` store, most significant
/// first.
pub open spec fn be32_value(bytes: Seq<u8>) -> int
    recommends
        bytes.len() >= 4,
{
    bytes[0] * 0x100_0000 + bytes[1] * 0x1_0000 + bytes[2] * 0x100 + bytes[3]
}

/// Reading back a stored number gives that number.
pub proof fn lemma_be32_value_of_be32(v: u32)
    ensures
        be32(v).len() == 4,
        be32_value(be32(v)) == v,
{
}

/// Four bytes are the stored form of the number they hold.
pub proof fn lemma_be32_of_be32_value(bytes: Seq<u8>)
    requires
        bytes.len() == 4,
    ensures
        0 <= be32_value(bytes) <= u32::MAX,
        be32(be32_value(bytes) as u32) == bytes,
{
    let b0 = bytes[0] as int;
    let b1 = bytes[1] as int;
    let b2 = bytes[2] as int;
    let b3 = bytes[3] as int;
    let v = be32_value(bytes);
    assert(v == b0 * 0x100_0000 + b1 * 0x1_0000 + b2 * 0x100 + b3);
    assert(v / 0x100_0000 == b0);
    assert(v / 0x1_0000 == b0 * 0x100 + b1);
    assert(v / 0x100 == b0 * 0x1_0000 + b1 * 0x100 + b2);
    assert(v / 0x1_0000 % 0x100 == b1);
    assert(v / 0x100 % 0x100 == b2);
    assert(v % 0x100 == b3);
    assert(be32(v as u32) =~= bytes);
}

/// Appends the stored form of `v` to `out`.
pub fn put_be32(out: &mut Vec<u8>, v: u32)
    ensures
        final(out)@ == old(out)@ + be32(v),
{
    out.push((v / 0x100_0000) as u8);
    out.push((v / 0x1_0000 % 0x100) as u8);
    out.push((v / 0x100 % 0x100) as u8);
    out.push((v % 0x100) as u8);
    assert(out@ =~= old(out)@ + be32(v));
}

/// Reads the number stored in the four bytes of `data` that start at `pos`.
pub fn get_be32(data: &[u8], pos: usize) -> (v: u32)
    requires
        pos + 4 <= data@.len(),
    ensures
        v == be32_value(data@.subrange(pos as int, pos + 4)),
{
    let b0: u32 = data[pos] as u32;
    let b1: u32 = data[pos + 1] as u32;
    let b2: u32 = data[pos + 2] as u32;
    let b3: u32 = data[pos + 3] as u32;
    b0 * 0x100_0000 + b1 * 0x1_0000 + b2 * 0x100 + b3
}

} // verus!
