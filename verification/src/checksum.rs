//! The CRC-32 checksum that snapshots carry.

use vstd::prelude::*;

verus! {

/// One step of a CRC-32 (IEEE): the lowest bit is shifted out, and where it was set
/// the polynomial, whose bits are reversed, is taken off.
pub open spec fn crc_bit(c: u32) -> u32 {
    if c & 1 == 1 {
        (c >> 1) ^ 0xedb8_8320u32
    } else {
        c >> 1
    }
}

/// A byte is taken in by its eight bits.
pub open spec fn crc_byte(c: u32, b: u8) -> u32 {
    crc_bit(crc_bit(crc_bit(crc_bit(crc_bit(crc_bit(crc_bit(crc_bit(c ^ (b as u32)))))))))
}

/// What is left after the bytes were taken in, one after the other.
pub open spec fn crc_left(bytes: Seq<u8>) -> u32
    decreases bytes.len(),
{
    if bytes.len() == 0 {
        0xffff_ffff
    } else {
        crc_byte(crc_left(bytes.drop_last()), bytes.last())
    }
}

/// The CRC-32 (IEEE) checksum.
pub open spec fn crc32_of(bytes: Seq<u8>) -> u32 {
    crc_left(bytes) ^ 0xffff_ffff
}

/// `crc32fast::hash`: the CRC-32 (IEEE) checksum of the bytes.
#[verifier::external_body]
pub(crate) fn crc32(bytes: &[u8]) -> (r: u32)
    ensures
        r == crc32_of(bytes@),
{
    crc32fast::hash(bytes)
}

proof fn lemma_crc_bit(x: u32, y: u32)
    requires
        crc_bit(x) == crc_bit(y),
    ensures
        x == y,
{
    assert((if x & 1 == 1 {
        (x >> 1) ^ 0xedb8_8320u32
    } else {
        x >> 1
    }) == (if y & 1 == 1 {
        (y >> 1) ^ 0xedb8_8320u32
    } else {
        y >> 1
    }) ==> x == y) by (bit_vector);
}

/// What is left tells apart what was left before, and the byte that was taken in.
proof fn lemma_crc_byte(c: u32, b: u8, d: u32, e: u8)
    requires
        crc_byte(c, b) == crc_byte(d, e),
    ensures
        b == e ==> c == d,
        c == d ==> b == e,
{
    let x0 = c ^ (b as u32);
    let y0 = d ^ (e as u32);
    let (x1, y1) = (crc_bit(x0), crc_bit(y0));
    let (x2, y2) = (crc_bit(x1), crc_bit(y1));
    let (x3, y3) = (crc_bit(x2), crc_bit(y2));
    let (x4, y4) = (crc_bit(x3), crc_bit(y3));
    let (x5, y5) = (crc_bit(x4), crc_bit(y4));
    let (x6, y6) = (crc_bit(x5), crc_bit(y5));
    let (x7, y7) = (crc_bit(x6), crc_bit(y6));
    lemma_crc_bit(x7, y7);
    lemma_crc_bit(x6, y6);
    lemma_crc_bit(x5, y5);
    lemma_crc_bit(x4, y4);
    lemma_crc_bit(x3, y3);
    lemma_crc_bit(x2, y2);
    lemma_crc_bit(x1, y1);
    lemma_crc_bit(x0, y0);
    assert(c ^ (b as u32) == d ^ (e as u32) && b == e ==> c == d) by (bit_vector);
    assert(c ^ (b as u32) == d ^ (e as u32) && c == d ==> b == e) by (bit_vector);
}

proof fn lemma_crc_left(a: Seq<u8>, i: int, byte: u8)
    requires
        0 <= i < a.len(),
        a[i] != byte,
    ensures
        crc_left(a.update(i, byte)) != crc_left(a),
    decreases a.len(),
{
    let u = a.update(i, byte);
    let init = a.drop_last();
    if crc_left(u) == crc_left(a) {
        lemma_crc_byte(crc_left(u.drop_last()), u.last(), crc_left(init), a.last());
        if i == a.len() - 1 {
            assert(u.drop_last() =~= init);
        } else {
            assert(u.drop_last() =~= init.update(i, byte));
            lemma_crc_left(init, i, byte);
        }
    }
}

/// A changed byte changes the checksum.
pub proof fn law_changed_byte_detected(a: Seq<u8>, i: int, byte: u8)
    requires
        0 <= i < a.len(),
        a[i] != byte,
    ensures
        crc32_of(a.update(i, byte)) != crc32_of(a),
{
    lemma_crc_left(a, i, byte);
    let x = crc_left(a);
    let y = crc_left(a.update(i, byte));
    assert(x ^ 0xffff_ffff == y ^ 0xffff_ffff ==> x == y) by (bit_vector);
}

}
