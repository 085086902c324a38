//! The table of names.

use vstd::prelude::*;

use super::families;
use crate::bytes;
use crate::crc32;
use crate::names;
use crate::names::EntryView;

verus! {

/// The number that four bytes count, from the least.
pub open spec fn number_at(b: Seq<u8>, i: int) -> int {
    b[i] + 0x100 * b[i + 1] + 0x1_0000 * b[i + 2] + 0x100_0000 * b[i + 3]
}

/// The first string has the offset 4, and each string behind it stands behind the bytes of
/// the one before, a zero and a checksum.
pub proof fn strings_stand_one_behind_the_other(strings: Seq<Seq<char>>, k: int)
    requires
        0 <= k < strings.len(),
        names::position(strings, k + 1) <= u32::MAX,
    ensures
        names::offset_at(strings, 0) == 4,
        names::offset_at(strings, k + 1) == names::offset_at(strings, k) + vstd::utf8::encode_utf8(
            strings[k],
        ).len() + 5,
{
    lemma_positions(strings, 0, k);
}

proof fn lemma_positions(strings: Seq<Seq<char>>, i: int, k: int)
    requires
        0 <= i <= k <= strings.len(),
    ensures
        20 <= names::position(strings, i) <= names::position(strings, k),
        i < k ==> names::position(strings, i) < names::position(strings, k),
    decreases k,
{
    if k > 0 {
        if i < k {
            lemma_positions(strings, i, k - 1);
        } else {
            lemma_positions(strings, k - 1, k - 1);
        }
    }
}

proof fn lemma_laid_out(strings: Seq<Seq<char>>, k: int)
    requires
        0 <= k <= strings.len(),
        names::position(strings, strings.len() as int) <= u32::MAX,
    ensures
        ({
            let m = names::laid_out(strings, k);
            &&& m.dom().finite()
            &&& m.dom().len() == k
            &&& forall|o: u32| #[trigger] m.dom().contains(o) ==> o < names::position(strings, k) - 16
            &&& forall|i: int|
                0 <= i < k ==> m.dom().contains(#[trigger] names::offset_at(strings, i))
                    && m[names::offset_at(strings, i)].string == strings[i]
                    && m[names::offset_at(strings, i)].crc == crc32::text_checksum(strings[i])
        }),
    decreases k,
{
    if k > 0 {
        lemma_laid_out(strings, k - 1);
        lemma_positions(strings, k - 1, k);
        lemma_positions(strings, k, strings.len() as int);
        let before = names::laid_out(strings, k - 1);
        let m = names::laid_out(strings, k);
        let at = names::offset_at(strings, k - 1);
        assert(!before.dom().contains(at));
        assert(m.dom() =~= before.dom().insert(at));
        assert forall|i: int| 0 <= i < k implies m.dom().contains(
            #[trigger] names::offset_at(strings, i),
        ) && m[names::offset_at(strings, i)].string == strings[i] && m[names::offset_at(
            strings,
            i,
        )].crc == crc32::text_checksum(strings[i]) by {
            if i < k - 1 {
                assert(before.dom().contains(names::offset_at(strings, i)));
            }
        }
    }
}

/// A table has every string at its offset, with its checksum, and its header says how many
/// strings there are and how many bytes follow; the rest of the header stays as it was.
pub proof fn a_table_says_what_it_holds(strings: Seq<Seq<char>>, header: Seq<u8>, i: int)
    requires
        header.len() == 20,
        names::position(strings, strings.len() as int) <= u32::MAX,
        names::finished(strings, header).bytes().len() <= u32::MAX,
    ensures
        ({
            let t = names::finished(strings, header);
            &&& t.header.len() == 20
            &&& number_at(t.header, 8) == strings.len()
            &&& number_at(t.header, 12) == t.bytes().len() - 16
            &&& 0 <= i < 8 || 16 <= i < 20 ==> t.header[i] == header[i]
            &&& 0 <= i < strings.len() ==> t.map.dom().contains(names::offset_at(strings, i))
                && t.map[names::offset_at(strings, i)].string == strings[i] && t.map[names::offset_at(
                strings,
                i,
            )].crc == crc32::text_checksum(strings[i])
            &&& t.map.dom().len() == strings.len()
        }),
{
    let t = names::finished(strings, header);
    let n = strings.len();
    lemma_laid_out(strings, n as int);
    lemma_positions(strings, 0, n as int);
    lemma_long(strings, n as int);
    if 0 <= i < n {
        assert(t.map.dom().contains(names::offset_at(strings, i)));
    }
    let size = names::NamesView { header, map: t.map }.bytes().len();
    assert(size == t.bytes().len());
    assert(size >= 20);
    families::bytes_count_from_the_least(n as u32);
    families::bytes_count_from_the_least((size - 16) as u32);
}

proof fn lemma_long(strings: Seq<Seq<char>>, k: int)
    requires
        0 <= k <= strings.len(),
    ensures
        names::position(strings, k) >= 20 + k,
    decreases k,
{
    if k > 0 {
        lemma_long(strings, k - 1);
    }
}

/// The bytes of an entry are its checksum, its string and a zero.
pub proof fn an_entry_is_a_checksum_and_a_string(e: EntryView, i: int)
    ensures
        ({
            let b = e.bytes();
            let text = vstd::utf8::encode_utf8(e.string);
            &&& b.len() == text.len() + 5
            &&& number_at(b, 0) == e.crc
            &&& 0 <= i < text.len() ==> b[4 + i] == text[i]
            &&& b.last() == 0
        }),
{
    families::bytes_count_from_the_least(e.crc);
    let b = e.bytes();
    let word = bytes::little_endian(e.crc);
    assert(b[0] == word[0] && b[1] == word[1] && b[2] == word[2] && b[3] == word[3]);
}

} // verus!
