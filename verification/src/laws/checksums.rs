//! The checksum of names.

use vstd::prelude::*;

use crate::bytes;
use crate::crc32;

verus! {

/// What a remainder with the low byte `low` is behind eight more bits, beside the bits that
/// move down.
proof fn lemma_byte(c: u32, low: u32, tail: u32)
    requires
        c & 0xff == low,
        (low == 0xff && tail == 0x2d02_ef8d) || (low == 0x72 && tail == 0xbe0b_1010) || (low == 0
            && tail == 0) || (low == 0xed && tail == 0xdebb_9ec5),
    ensures
        crc32::shifted(c, 8) == (c >> 8u32) ^ tail,
{
    let c1 = crc32::shifted(c, 1);
    let c2 = crc32::shifted(c, 2);
    let c3 = crc32::shifted(c, 3);
    let c4 = crc32::shifted(c, 4);
    let c5 = crc32::shifted(c, 5);
    let c6 = crc32::shifted(c, 6);
    let c7 = crc32::shifted(c, 7);
    let c8 = crc32::shifted(c, 8);
    assert(crc32::shifted(c, 0) == c);
    assert(c8 == (c >> 8u32) ^ tail) by (bit_vector)
        requires
            c & 0xff == low,
            (low == 0xff && tail == 0x2d02_ef8d) || (low == 0x72 && tail == 0xbe0b_1010) || (low
                == 0 && tail == 0) || (low == 0xed && tail == 0xdebb_9ec5),
            c1 == if c & 1 == 1 {
                (c >> 1u32) ^ 0xedb8_8320
            } else {
                c >> 1u32
            },
            c2 == if c1 & 1 == 1 {
                (c1 >> 1u32) ^ 0xedb8_8320
            } else {
                c1 >> 1u32
            },
            c3 == if c2 & 1 == 1 {
                (c2 >> 1u32) ^ 0xedb8_8320
            } else {
                c2 >> 1u32
            },
            c4 == if c3 & 1 == 1 {
                (c3 >> 1u32) ^ 0xedb8_8320
            } else {
                c3 >> 1u32
            },
            c5 == if c4 & 1 == 1 {
                (c4 >> 1u32) ^ 0xedb8_8320
            } else {
                c4 >> 1u32
            },
            c6 == if c5 & 1 == 1 {
                (c5 >> 1u32) ^ 0xedb8_8320
            } else {
                c5 >> 1u32
            },
            c7 == if c6 & 1 == 1 {
                (c6 >> 1u32) ^ 0xedb8_8320
            } else {
                c6 >> 1u32
            },
            c8 == if c7 & 1 == 1 {
                (c7 >> 1u32) ^ 0xedb8_8320
            } else {
                c7 >> 1u32
            },
    ;
}

proof fn lemma_prefix(a: Seq<u8>, b: Seq<u8>, k: int)
    requires
        0 <= k <= a.len(),
        k <= b.len(),
        forall|i: int| 0 <= i < k ==> a[i] == b[i],
    ensures
        crc32::remainder(a, k) == crc32::remainder(b, k),
    decreases k,
{
    if k > 0 {
        lemma_prefix(a, b, k - 1);
    }
}

/// The checksum of nothing is 0, and bytes with their own checksum behind them, from its
/// least byte on, have the same checksum whatever the bytes are.
pub proof fn bytes_with_their_checksum_check_out(b: Seq<u8>)
    ensures
        crc32::checksum(Seq::empty()) == 0,
        crc32::checksum(b + bytes::little_endian(crc32::checksum(b))) == 0x2144_df1c,
{
    assert(!0xffff_ffffu32 == 0u32) by (bit_vector);
    let n = b.len() as int;
    let c = crc32::remainder(b, n);
    let own = crc32::checksum(b);
    let w = bytes::little_endian(own);
    let all = b + w;
    lemma_prefix(all, b, n);
    assert(all[n] == w[0] && all[n + 1] == w[1] && all[n + 2] == w[2] && all[n + 3] == w[3]);
    let (w0, w1, w2, w3) = (w[0], w[1], w[2], w[3]);
    let r1 = crc32::remainder(all, n + 1);
    let r2 = crc32::remainder(all, n + 2);
    let r3 = crc32::remainder(all, n + 3);
    let r4 = crc32::remainder(all, n + 4);
    let x0 = c ^ (w0 as u32);
    assert(x0 & 0xff == 0xff && x0 >> 8u32 == c >> 8u32) by (bit_vector)
        requires
            x0 == c ^ (w0 as u32),
            w0 == (!c & 0xff) as u8,
    ;
    lemma_byte(x0, 0xff, 0x2d02_ef8d);
    let x1 = r1 ^ (w1 as u32);
    assert(x1 & 0xff == 0x72 && x1 >> 8u32 == (c >> 16u32) ^ 0x2d_02ef) by (bit_vector)
        requires
            r1 == (c >> 8u32) ^ 0x2d02_ef8d,
            x1 == r1 ^ (w1 as u32),
            w1 == ((!c >> 8) & 0xff) as u8,
    ;
    lemma_byte(x1, 0x72, 0xbe0b_1010);
    let x2 = r2 ^ (w2 as u32);
    assert(x2 & 0xff == 0 && x2 >> 8u32 == (c >> 24u32) ^ 0xbe_2612) by (bit_vector)
        requires
            r2 == (c >> 16u32) ^ 0x2d_02ef ^ 0xbe0b_1010,
            x2 == r2 ^ (w2 as u32),
            w2 == ((!c >> 16) & 0xff) as u8,
    ;
    lemma_byte(x2, 0, 0);
    let x3 = r3 ^ (w3 as u32);
    assert(x3 & 0xff == 0xed && x3 >> 8u32 == 0xbe26) by (bit_vector)
        requires
            r3 == (c >> 24u32) ^ 0xbe_2612 ^ 0,
            x3 == r3 ^ (w3 as u32),
            w3 == ((!c >> 24) & 0xff) as u8,
    ;
    lemma_byte(x3, 0xed, 0xdebb_9ec5);
    assert(r4 == 0xbe26u32 ^ 0xdebb_9ec5u32);
    assert(!(0xbe26u32 ^ 0xdebb_9ec5u32) == 0x2144_df1cu32) by (bit_vector);
}

/// The checksum of a text is that of its bytes.
pub proof fn texts_have_the_checksum_of_their_bytes(s: Seq<char>, b: Seq<u8>)
    requires
        vstd::utf8::encode_utf8(s) == b,
    ensures
        crc32::text_checksum(s) == crc32::checksum(b),
{
}

} // verus!
