//! The checksum by which names are found again.

use vstd::prelude::*;

verus! {

/// The reversed polynomial of CRC-32.
pub const POLYNOMIAL: u32 = 0xEDB8_8320;

/// The remainder behind `n` more bits.
pub open spec fn shifted(c: u32, n: nat) -> u32
    decreases n,
{
    if n == 0 {
        c
    } else {
        let rest = shifted(c, (n - 1) as nat);
        if rest & 1 == 1 {
            (rest >> 1u32) ^ POLYNOMIAL
        } else {
            rest >> 1u32
        }
    }
}

/// The remainder behind the first `k` bytes.
pub open spec fn remainder(bytes: Seq<u8>, k: int) -> u32
    decreases k,
{
    if k <= 0 || k > bytes.len() {
        0xFFFF_FFFF
    } else {
        shifted(remainder(bytes, k - 1) ^ (bytes[k - 1] as u32), 8)
    }
}

/// The CRC-32 of some bytes.
pub open spec fn checksum(bytes: Seq<u8>) -> u32 {
    !remainder(bytes, bytes.len() as int)
}

/// The CRC-32 of a text.
pub open spec fn text_checksum(text: Seq<char>) -> u32 {
    checksum(vstd::utf8::encode_utf8(text))
}

/// The CRC-32 of some bytes.
pub fn crc(bytes: &[u8]) -> (r: u32)
    ensures
        r == checksum(bytes@),
{
    let mut c: u32 = 0xFFFF_FFFF;
    let mut i: usize = 0;
    while i < bytes.len()
        invariant
            i <= bytes@.len(),
            c == remainder(bytes@, i as int),
        decreases bytes@.len() - i,
    {
        let start: u32 = c ^ (bytes[i] as u32);
        c = start;
        let mut n: usize = 0;
        while n < 8
            invariant
                n <= 8,
                c == shifted(start, n as nat),
            decreases 8 - n,
        {
            if c & 1 == 1 {
                c = (c >> 1u32) ^ POLYNOMIAL;
            } else {
                c = c >> 1u32;
            }
            n = n + 1;
        }
        i = i + 1;
    }
    !c
}

/// The CRC-32 of a text.
pub fn crc_text(text: &str) -> (r: u32)
    ensures
        r == text_checksum(text@),
{
    crc(text.as_bytes())
}

} // verus!
