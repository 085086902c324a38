//! Numbers and text as bytes.

use vstd::prelude::*;

verus! {

/// The bytes of a number, the least significant first.
pub open spec fn little_endian(n: u32) -> Seq<u8> {
    seq![
        (n & 0xff) as u8,
        ((n >> 8) & 0xff) as u8,
        ((n >> 16) & 0xff) as u8,
        ((n >> 24) & 0xff) as u8,
    ]
}

/// The number that four bytes give, the least significant first.
pub open spec fn from_little_endian(b: Seq<u8>) -> u32 {
    (b[0] as u32) | ((b[1] as u32) << 8) | ((b[2] as u32) << 16) | ((b[3] as u32) << 24)
}

/// Reading what was written gives the number back.
pub proof fn lemma_little_endian(n: u32)
    ensures
        from_little_endian(little_endian(n)) == n,
{
    let (a, b, c, d) = (
        (n & 0xff) as u8,
        ((n >> 8) & 0xff) as u8,
        ((n >> 16) & 0xff) as u8,
        ((n >> 24) & 0xff) as u8,
    );
    assert((a as u32) | ((b as u32) << 8) | ((c as u32) << 16) | ((d as u32) << 24) == n)
        by (bit_vector)
        requires
            a == (n & 0xff) as u8,
            b == ((n >> 8) & 0xff) as u8,
            c == ((n >> 16) & 0xff) as u8,
            d == ((n >> 24) & 0xff) as u8,
    ;
}

/// Writing what was read gives the bytes back.
pub proof fn lemma_from_little_endian(b: Seq<u8>)
    requires
        b.len() == 4,
    ensures
        little_endian(from_little_endian(b)) == b,
{
    let (w, x, y, z) = (b[0], b[1], b[2], b[3]);
    let n = from_little_endian(b);
    assert(w == (n & 0xff) as u8 && x == ((n >> 8) & 0xff) as u8 && y == ((n >> 16) & 0xff) as u8
        && z == ((n >> 24) & 0xff) as u8) by (bit_vector)
        requires
            n == (w as u32) | ((x as u32) << 8) | ((y as u32) << 16) | ((z as u32) << 24),
    ;
    assert(little_endian(n) =~= b);
}

/// Writes a number, the least significant byte first.
pub fn put_u32(out: &mut Vec<u8>, n: u32)
    ensures
        final(out)@ == old(out)@ + little_endian(n),
{
    out.push((n & 0xff) as u8);
    out.push(((n >> 8) & 0xff) as u8);
    out.push(((n >> 16) & 0xff) as u8);
    out.push(((n >> 24) & 0xff) as u8);
    assert(out@ =~= old(out)@ + little_endian(n));
}

/// Reads the number at `at`, the least significant byte first.
pub fn take_u32(b: &[u8], at: usize) -> (r: Option<u32>)
    ensures
        r == (if at + 4 <= b@.len() {
            Some(from_little_endian(b@.subrange(at as int, at + 4)))
        } else {
            None
        }),
{
    if b.len() < 4 || at > b.len() - 4 {
        return None;
    }
    Some(
        (b[at] as u32) | ((b[at + 1] as u32) << 8) | ((b[at + 2] as u32) << 16) | ((b[at
            + 3] as u32) << 24),
    )
}

/// `std::str::from_utf8` gives the text that the bytes encode where they are valid
/// UTF-8, and an error where they are not.
#[verifier::external_body]
pub(crate) fn decode_text(bytes: &[u8]) -> (r: Option<String>)
    ensures
        r is Some <==> vstd::utf8::valid_utf8(bytes@),
        r is Some ==> r->0@ == vstd::utf8::decode_utf8(bytes@),
{
    match std::str::from_utf8(bytes) {
        Ok(text) => Some(text.to_owned()),
        Err(_) => None,
    }
}

/// The text of bytes, with U+FFFD for what is no UTF-8: what `String::from_utf8_lossy` gives.
pub uninterp spec fn lossy_text(bytes: Seq<u8>) -> Seq<char>;

/// `String::from_utf8_lossy` gives the text that the bytes encode where they are valid
/// UTF-8; else a text that depends on the bytes alone, with U+FFFD for every part of them
/// that is no UTF-8. How the bytes are parted there is left unsaid.
#[verifier::external_body]
pub(crate) fn decode_lossy(bytes: &[u8]) -> (r: String)
    ensures
        r@ == lossy_text(bytes@),
        vstd::utf8::valid_utf8(bytes@) ==> r@ == vstd::utf8::decode_utf8(bytes@),
{
    String::from_utf8_lossy(bytes).into_owned()
}

} // verus!
