//! Packing and unpacking of fixed byte layouts: big-endian integers and
//! 20-byte hashes, field by field.

use vstd::prelude::*;

verus! {

/// The four bytes of `x`, most significant first.
pub open spec fn u32_be(x: u32) -> Seq<u8> {
    seq![
        (x / 16777216) as u8,
        ((x / 65536) % 256) as u8,
        ((x / 256) % 256) as u8,
        (x % 256) as u8,
    ]
}

/// The number that four bytes hold, most significant first.
pub open spec fn be_u32(b: Seq<u8>) -> u32
    recommends
        b.len() == 4,
{
    (b[0] * 16777216 + b[1] * 65536 + b[2] * 256 + b[3]) as u32
}

/// The number that two bytes hold, most significant first.
pub open spec fn be_u16(b: Seq<u8>) -> u16
    recommends
        b.len() == 2,
{
    (b[0] * 256 + b[1]) as u16
}

/// Unpacking undoes packing.
pub proof fn lemma_be_u32_of_u32_be(x: u32)
    ensures
        u32_be(x).len() == 4,
        be_u32(u32_be(x)) == x,
{
}

/// The four bytes of `x`, most significant first.
pub fn u32_to_be(x: u32) -> (bytes: [u8; 4])
    ensures
        bytes@ == u32_be(x),
{
    let bytes: [u8; 4] = [
        (x / 16777216) as u8,
        ((x / 65536) % 256) as u8,
        ((x / 256) % 256) as u8,
        (x % 256) as u8,
    ];
    assert(bytes@ =~= u32_be(x));
    bytes
}

/// The number held by the four bytes of `bytes` from `at` on.
pub fn u32_from_be(bytes: &[u8], at: usize) -> (x: u32)
    requires
        at + 4 <= bytes@.len(),
    ensures
        x == be_u32(bytes@.subrange(at as int, at + 4)),
{
    let b0 = bytes[at] as u32;
    let b1 = bytes[at + 1] as u32;
    let b2 = bytes[at + 2] as u32;
    let b3 = bytes[at + 3] as u32;
    b0 * 16777216 + b1 * 65536 + b2 * 256 + b3
}

/// The number held by the two bytes of `bytes` from `at` on.
pub fn u16_from_be(bytes: &[u8], at: usize) -> (x: u16)
    requires
        at + 2 <= bytes@.len(),
    ensures
        x == be_u16(bytes@.subrange(at as int, at + 2)),
{
    let b0 = bytes[at] as u16;
    let b1 = bytes[at + 1] as u16;
    b0 * 256 + b1
}

/// The 20 bytes of `bytes` from `at` on.
pub fn hash_at(bytes: &[u8], at: usize) -> (hash: [u8; 20])
    requires
        at + 20 <= bytes@.len(),
    ensures
        hash@ == bytes@.subrange(at as int, at + 20),
{
    let len = bytes.len();
    let mut hash: [u8; 20] = [0u8; 20];
    let mut i: usize = 0;
    while i < 20
        invariant
            i <= 20,
            at + 20 <= bytes@.len(),
            bytes@.len() == len,
            forall|k: int| 0 <= k < i ==> hash@[k] == bytes@[at + k],
        decreases 20 - i,
    {
        hash[i] = bytes[at + i];
        i += 1;
    }
    assert(hash@ =~= bytes@.subrange(at as int, at + 20));
    hash
}

} // verus!
