//! The table of names: every string once, found again by its offset.

use std::collections::BTreeMap;
use vstd::prelude::*;

use crate::bytes;
use crate::bytes::{decode_text, put_u32, take_u32};
use crate::crc32;
use crate::crc32::crc_text;
use crate::name_map::NameMap;
use crate::strings::same;

verus! {

broadcast use vstd::std_specs::btree::group_btree_axioms;

// ── Entries ──────────────────────────────────────────────────────────────────

/// A string and its checksum.
#[derive(Debug)]
pub struct NamesEntry {
    pub crc: u32,
    pub string: String,
}

/// What a [`NamesEntry`] holds.
pub struct EntryView {
    pub crc: u32,
    pub string: Seq<char>,
}

impl View for NamesEntry {
    type V = EntryView;

    open spec fn view(&self) -> EntryView {
        EntryView { crc: self.crc, string: self.string@ }
    }
}

impl Clone for NamesEntry {
    fn clone(&self) -> (r: Self)
        ensures
            r@ == self@,
    {
        NamesEntry { crc: self.crc, string: self.string.clone() }
    }
}

/// Why a number cannot be read.
#[derive(Debug, Clone, Copy, PartialEq, Eq, Structural)]
pub enum TakeError {
    UnexpectedEnd,
}

/// Why a string cannot be read.
#[derive(Debug, Clone, Copy, PartialEq, Eq, Structural)]
pub enum TakeNullTerminatedUtf8 {
    /// No zero byte ends the string.
    MissingTerminator,
    /// The bytes are not valid UTF-8.
    InvalidUtf8,
}

/// Why an entry cannot be read.
#[derive(Debug, Clone, Copy, PartialEq, Eq, Structural)]
pub enum NamesEntryError {
    Crc(TakeError),
    String(TakeNullTerminatedUtf8),
}

/// Why a table cannot be read.
#[derive(Debug, Clone, Copy, PartialEq, Eq, Structural)]
pub enum NamesError {
    /// There are fewer bytes than the header has.
    MissingHeader,
    /// The entry at the offset cannot be read.
    ParseEntry(usize, NamesEntryError),
}

impl EntryView {
    /// The bytes of an entry: the checksum, the string, and a zero byte.
    pub open spec fn bytes(self) -> Seq<u8> {
        bytes::little_endian(self.crc) + vstd::utf8::encode_utf8(self.string) + seq![0u8]
    }
}

/// The first place at or behind `k` of a zero byte; the length if there is none.
pub open spec fn terminator(b: Seq<u8>, k: int) -> int
    decreases b.len() - k,
{
    if k < 0 || k >= b.len() || b[k] == 0 {
        k
    } else {
        terminator(b, k + 1)
    }
}

/// The entry at `off`, and the place behind it.
pub open spec fn entry_at(b: Seq<u8>, off: int) -> Result<(EntryView, int), NamesEntryError> {
    if b.len() < off + 4 {
        Err(NamesEntryError::Crc(TakeError::UnexpectedEnd))
    } else {
        let end = terminator(b, off + 4);
        if end >= b.len() {
            Err(NamesEntryError::String(TakeNullTerminatedUtf8::MissingTerminator))
        } else {
            let text = b.subrange(off + 4, end);
            if !vstd::utf8::valid_utf8(text) {
                Err(NamesEntryError::String(TakeNullTerminatedUtf8::InvalidUtf8))
            } else {
                Ok(
                    (
                        EntryView {
                            crc: bytes::from_little_endian(b.subrange(off, off + 4)),
                            string: vstd::utf8::decode_utf8(text),
                        },
                        end + 1,
                    ),
                )
            }
        }
    }
}

proof fn lemma_terminator(b: Seq<u8>, k: int)
    requires
        0 <= k <= b.len(),
    ensures
        k <= terminator(b, k) <= b.len(),
        forall|i: int| k <= i < terminator(b, k) ==> b[i] != 0,
        terminator(b, k) < b.len() ==> b[terminator(b, k)] == 0,
    decreases b.len() - k,
{
    if k < b.len() && b[k] != 0 {
        lemma_terminator(b, k + 1);
    }
}

/// The view of a read entry.
pub open spec fn entry_view(r: Result<(NamesEntry, usize), NamesEntryError>) -> Result<
    (EntryView, int),
    NamesEntryError,
> {
    match r {
        Ok((e, n)) => Ok((e@, n as int)),
        Err(x) => Err(x),
    }
}

impl NamesEntry {
    /// Reads the entry at `off`; gives back the place behind it too.
    fn parse(b: &[u8], off: usize) -> (r: Result<(NamesEntry, usize), NamesEntryError>)
        requires
            off <= b@.len(),
        ensures
            entry_view(r) == entry_at(b@, off as int),
    {
        let crc = match take_u32(b, off) {
            Some(n) => n,
            None => return Err(NamesEntryError::Crc(TakeError::UnexpectedEnd)),
        };
        let n: usize = b.len();
        let mut end: usize = off + 4;
        while end < n && b[end] != 0
            invariant
                n == b@.len(),
                off + 4 <= end <= n,
                terminator(b@, off + 4) == terminator(b@, end as int),
            decreases b@.len() - end,
        {
            end = end + 1;
        }
        if end == n {
            return Err(NamesEntryError::String(TakeNullTerminatedUtf8::MissingTerminator));
        }
        let text = vstd::slice::slice_subrange(b, off + 4, end);
        match decode_text(text) {
            Some(string) => Ok((NamesEntry { crc, string }, end + 1)),
            None => Err(NamesEntryError::String(TakeNullTerminatedUtf8::InvalidUtf8)),
        }
    }

    /// Writes the entry.
    fn serialize(&self, out: &mut Vec<u8>)
        ensures
            final(out)@ == old(out)@ + self@.bytes(),
    {
        put_u32(out, self.crc);
        put_bytes(out, self.string.as_str().as_bytes());
        out.push(0);
        assert(out@ =~= old(out)@ + self@.bytes());
    }
}

fn put_bytes(out: &mut Vec<u8>, b: &[u8])
    ensures
        final(out)@ == old(out)@ + b@,
{
    let ghost before = out@;
    let mut i: usize = 0;
    assert(before + b@.take(0) =~= before);
    while i < b.len()
        invariant
            i <= b@.len(),
            before == old(out)@,
            out@ == before + b@.take(i as int),
        decreases b@.len() - i,
    {
        out.push(b[i]);
        assert(before + b@.take(i as int + 1) =~= (before + b@.take(i as int)).push(
            b@[i as int],
        ));
        i = i + 1;
    }
    assert(b@.take(b@.len() as int) =~= b@);
}

// ── Tables ───────────────────────────────────────────────────────────────────

/// The length of the header.
pub const HEADER: usize = 20;

/// A table of names: the header, and the entries by the offsets of their strings
/// behind the header.
#[derive(Debug)]
pub struct Names {
    pub header_bytes: [u8; 20],
    pub map: BTreeMap<u32, NamesEntry>,
}

/// What a [`Names`] holds.
pub struct NamesView {
    pub header: Seq<u8>,
    pub map: Map<u32, EntryView>,
}

/// The entries of a map.
pub open spec fn entries(m: Map<u32, NamesEntry>) -> Map<u32, EntryView> {
    m.map_values(|e: NamesEntry| e@)
}

impl View for Names {
    type V = NamesView;

    open spec fn view(&self) -> NamesView {
        NamesView { header: self.header_bytes@, map: entries(self.map@) }
    }
}

/// The bytes of the entry with the offset `k`, if there is one.
pub open spec fn slot(m: Map<u32, EntryView>, k: int) -> Seq<u8> {
    if 0 <= k <= u32::MAX && m.dom().contains(k as u32) {
        m[k as u32].bytes()
    } else {
        Seq::empty()
    }
}

/// The bytes of the entries with offsets from `lo` up to `hi`, in ascending order.
pub open spec fn content(m: Map<u32, EntryView>, lo: int, hi: int) -> Seq<u8>
    decreases hi - lo,
{
    if lo >= hi {
        Seq::empty()
    } else {
        content(m, lo, hi - 1) + slot(m, hi - 1)
    }
}

/// What is behind every offset.
pub const LIMIT: u64 = 0x1_0000_0000;

impl NamesView {
    /// The bytes of a table: the header, and the entries in ascending order of offset.
    pub open spec fn bytes(self) -> Seq<u8> {
        self.header + content(self.map, 0, LIMIT as int)
    }
}

/// The entries of the bytes from `off` on, added to `m`.
pub open spec fn entries_from(b: Seq<u8>, off: int, m: Map<u32, EntryView>) -> Result<
    Map<u32, EntryView>,
    NamesError,
>
    decreases b.len() - off,
{
    if off < 0 || off >= b.len() {
        Ok(m)
    } else {
        match entry_at(b, off) {
            Err(x) => Err(NamesError::ParseEntry(off as usize, x)),
            Ok((e, next)) => if next <= off {
                Ok(m)
            } else {
                entries_from(b, next, m.insert((off + 4 - 20) as u32, e))
            },
        }
    }
}

/// The table that the bytes hold.
pub open spec fn table_of(b: Seq<u8>) -> Result<NamesView, NamesError> {
    if b.len() < 20 {
        Err(NamesError::MissingHeader)
    } else {
        match entries_from(b, 20, Map::empty()) {
            Ok(map) => Ok(NamesView { header: b.subrange(0, 20), map }),
            Err(x) => Err(x),
        }
    }
}

/// The view of a read table.
pub open spec fn names_view(r: Result<Names, NamesError>) -> Result<NamesView, NamesError> {
    match r {
        Ok(n) => Ok(n@),
        Err(x) => Err(x),
    }
}

proof fn lemma_split(m: Map<u32, EntryView>, lo: int, mid: int, hi: int)
    requires
        lo <= mid <= hi,
    ensures
        content(m, lo, hi) == content(m, lo, mid) + content(m, mid, hi),
    decreases hi - mid,
{
    if mid < hi {
        lemma_split(m, lo, mid, hi - 1);
        assert(content(m, lo, hi) =~= content(m, lo, mid) + content(m, mid, hi));
    } else {
        assert(content(m, lo, hi) =~= content(m, lo, mid) + content(m, mid, hi));
    }
}

proof fn lemma_gap(m: Map<u32, EntryView>, lo: int, hi: int)
    requires
        forall|k: u32| lo <= k < hi ==> !#[trigger] m.dom().contains(k),
    ensures
        content(m, lo, hi) == Seq::<u8>::empty(),
    decreases hi - lo,
{
    if lo < hi {
        lemma_gap(m, lo, hi - 1);
        if 0 <= hi - 1 <= u32::MAX {
            assert(!m.dom().contains((hi - 1) as u32));
        }
    }
}

proof fn lemma_one(m: Map<u32, EntryView>, lo: u32, hi: int)
    requires
        lo < hi,
        m.dom().contains(lo),
        forall|k: u32| lo < k < hi ==> !#[trigger] m.dom().contains(k),
    ensures
        content(m, lo as int, hi) == m[lo].bytes(),
{
    lemma_split(m, lo as int, lo + 1, hi);
    lemma_gap(m, lo + 1, hi);
    assert(content(m, lo as int, lo as int) =~= Seq::<u8>::empty());
    assert(content(m, lo as int, lo + 1) =~= m[lo].bytes());
    assert(content(m, lo as int, hi) =~= m[lo].bytes());
}

proof fn lemma_keys_ascend(s: Seq<(&u32, &NamesEntry)>)
    requires
        vstd::std_specs::btree::increasing_seq(
            s.map_values(|kv: (&u32, &NamesEntry)| *kv.0),
        ),
    ensures
        forall|i: int, j: int|
            0 <= i < j < s.len() ==> *(#[trigger] s[i]).0 < *(#[trigger] s[j]).0,
{
    let keys = s.map_values(|kv: (&u32, &NamesEntry)| *kv.0);
    assert forall|i: int, j: int| 0 <= i < j < s.len() implies *(#[trigger] s[i]).0 < *(
    #[trigger] s[j]).0 by {
        assert(vstd::std_specs::cmp::OrdSpec::cmp_spec(&keys[i], &keys[j]) is Less);
    }
}

/// What is behind the offsets of the first `n` entries.
spec fn before(s: Seq<(&u32, &NamesEntry)>, n: int) -> int {
    if n <= 0 || n > s.len() {
        0
    } else {
        *s[n - 1].0 + 1
    }
}

impl Names {
    /// Reads a table.
    pub fn from_bytes(b: &[u8]) -> (r: Result<Names, NamesError>)
        ensures
            names_view(r) == table_of(b@),
    {
        if b.len() < 20 {
            return Err(NamesError::MissingHeader);
        }
        let mut header_bytes: [u8; 20] = [0; 20];
        let mut i: usize = 0;
        while i < 20
            invariant
                i <= 20,
                b@.len() >= 20,
                forall|j: int| 0 <= j < i ==> header_bytes@[j] == b@[j],
            decreases 20 - i,
        {
            header_bytes[i] = b[i];
            i = i + 1;
        }
        assert(header_bytes@ =~= b@.subrange(0, 20));
        let mut map: BTreeMap<u32, NamesEntry> = BTreeMap::new();
        let mut off: usize = 20;
        assert(entries(map@) =~= Map::<u32, EntryView>::empty());
        let ghost whole = entries_from(b@, 20, Map::empty());
        while off < b.len()
            invariant
                20 <= off <= b@.len(),
                b@.len() >= 20,
                whole == entries_from(b@, 20, Map::empty()),
                whole == entries_from(b@, off as int, entries(map@)),
            decreases b@.len() - off,
        {
            match NamesEntry::parse(b, off) {
                Err(x) => return Err(NamesError::ParseEntry(off, x)),
                Ok((entry, next)) => {
                    proof {
                        lemma_terminator(b@, off + 4);
                    }
                    let ghost before = map@;
                    let ghost new = entry@;
                    let at: u32 = (off + 4 - 20) as u32;
                    map.insert(at, entry);
                    assert(entries(map@) =~= entries(before).insert(at, new));
                    off = next;
                },
            }
        }
        Ok(Names { header_bytes, map })
    }

    /// The bytes of the table: the header, and the entries in ascending order of
    /// offset.
    pub fn to_bytes(&self) -> (r: Vec<u8>)
        ensures
            r@ == self@.bytes(),
    {
        let ghost m = entries(self.map@);
        let mut out: Vec<u8> = Vec::new();
        let mut i: usize = 0;
        while i < 20
            invariant
                i <= 20,
                out@ =~= self.header_bytes@.take(i as int),
            decreases 20 - i,
        {
            out.push(self.header_bytes[i]);
            i = i + 1;
        }
        assert(out@ =~= self.header_bytes@);
        let ghost mut bound: int = 0;
        assert(content(m, 0, 0) =~= Seq::<u8>::empty());
        let all = self.map.iter();
        proof {
            lemma_keys_ascend(vstd::std_specs::iter::IteratorSpec::remaining(&all));
        }
        for kv in it: all
            invariant
                m == entries(self.map@),
                0 <= bound <= LIMIT,
                bound == before(it.seq(), it.index()),
                forall|i: int, j: int|
                    0 <= i < j < it.seq().len() ==> *(#[trigger] it.seq()[i]).0 < *(
                    #[trigger] it.seq()[j]).0,
                forall|i: int|
                    0 <= i < it.seq().len() ==> self.map@.contains_key(
                        *(#[trigger] it.seq()[i]).0,
                    ) && self.map@[*it.seq()[i].0] == *it.seq()[i].1,
                forall|k: u32| #[trigger]
                    self.map@.contains_key(k) ==> it.seq().contains((&k, &self.map@[k])),
                out@ == self.header_bytes@ + content(m, 0, bound),
        {
            kv.1.serialize(&mut out);
            proof {
                let n = it.index();
                let key = *kv.0;
                assert(it.seq()[n] == kv);
                assert forall|k: u32| bound <= k < key implies !#[trigger] m.dom().contains(k) by {
                    if m.dom().contains(k) {
                        assert(self.map@.contains_key(k));
                        let j = choose|j: int|
                            0 <= j < it.seq().len() && it.seq()[j] == (&k, &self.map@[k]);
                        assert(*it.seq()[j].0 == k);
                    }
                }
                lemma_split(m, 0, bound, key as int);
                lemma_gap(m, bound, key as int);
                assert(m.dom().contains(key));
                assert(m[key] == kv.1@);
                assert(content(m, 0, key + 1) =~= content(m, 0, bound) + kv.1@.bytes());
                bound = key + 1;
            }
        }
        proof {
            assert forall|k: u32| bound <= k < LIMIT implies !#[trigger] m.dom().contains(k) by {
                if m.dom().contains(k) {
                    assert(self.map@.contains_key(k));
                }
            }
            lemma_split(m, 0, bound, LIMIT as int);
            lemma_gap(m, bound, LIMIT as int);
            assert(out@ =~= self@.bytes());
        }
        out
    }
}

proof fn lemma_written_back(b: Seq<u8>, off: int, m: Map<u32, EntryView>)
    requires
        20 <= off <= b.len() <= LIMIT + 16,
        forall|k: u32| #[trigger] m.dom().contains(k) ==> k < off - 16,
        entries_from(b, off, m) is Ok,
    ensures
        forall|k: u32|
            k < off - 16 ==> (#[trigger] entries_from(b, off, m)->Ok_0.dom().contains(k)
                == m.dom().contains(k) && entries_from(b, off, m)->Ok_0[k] == m[k]),
        content(entries_from(b, off, m)->Ok_0, off - 16, LIMIT as int) == b.skip(off),
    decreases b.len() - off,
{
    let all = entries_from(b, off, m)->Ok_0;
    if off == b.len() {
        lemma_gap(m, off - 16, LIMIT as int);
        assert(b.skip(off) =~= Seq::<u8>::empty());
    } else {
        let (e, next) = entry_at(b, off)->Ok_0;
        let at = (off + 4 - 20) as u32;
        let with = m.insert(at, e);
        lemma_terminator(b, off + 4);
        assert(at == off - 16);
        lemma_written_back(b, next, with);
        assert(all == entries_from(b, next, with)->Ok_0);
        assert forall|k: u32| k < off - 16 implies (#[trigger] all.dom().contains(k)
            == m.dom().contains(k) && all[k] == m[k]) by {
            assert(all.dom().contains(k) == with.dom().contains(k));
        }
        assert(all.dom().contains(at) && all[at] == e) by {
            assert(all.dom().contains(at) == with.dom().contains(at));
        }
        assert forall|k: u32| at < k < next - 16 implies !#[trigger] all.dom().contains(k) by {
            assert(all.dom().contains(k) == with.dom().contains(k));
            if with.dom().contains(k) {
                assert(m.dom().contains(k));
            }
        }
        lemma_one(all, at, next - 16);
        lemma_split(all, off - 16, next - 16, LIMIT as int);
        let text = b.subrange(off + 4, next - 1);
        bytes::lemma_from_little_endian(b.subrange(off, off + 4));
        vstd::utf8::decode_utf8_encode_utf8(text);
        assert(e.bytes() =~= b.subrange(off, next));
        assert(content(all, off - 16, LIMIT as int) =~= b.skip(off));
    }
}

/// A table that was read is written back byte for byte, as long as its offsets fit.
pub proof fn a_table_is_written_back(b: Seq<u8>)
    requires
        table_of(b) is Ok,
        b.len() <= LIMIT + 16,
    ensures
        table_of(b)->Ok_0.bytes() == b,
{
    let none = Map::<u32, EntryView>::empty();
    let all = entries_from(b, 20, none)->Ok_0;
    lemma_written_back(b, 20, none);
    assert forall|k: u32| 0 <= k < 4 implies !#[trigger] all.dom().contains(k) by {
        assert(all.dom().contains(k) == none.dom().contains(k));
    }
    lemma_split(all, 0, 4, LIMIT as int);
    lemma_gap(all, 0, 4);
    assert(table_of(b)->Ok_0.bytes() =~= b);
}

// ── Building ─────────────────────────────────────────────────────────────────

/// How many bytes the entry of a string takes.
pub open spec fn entry_size(s: Seq<char>) -> int {
    vstd::utf8::encode_utf8(s).len() + 5int
}

/// Where the entry behind the first `k` strings begins.
pub open spec fn position(strings: Seq<Seq<char>>, k: int) -> int
    decreases k,
{
    if k <= 0 || k > strings.len() {
        20
    } else {
        position(strings, k - 1) + entry_size(strings[k - 1])
    }
}

/// The offset of string `k`: where its text begins behind the header.
pub open spec fn offset_at(strings: Seq<Seq<char>>, k: int) -> u32 {
    (position(strings, k) + 4 - 20) as u32
}

/// The entry of a string.
pub open spec fn entry_for(s: Seq<char>) -> EntryView {
    EntryView { crc: crc32::text_checksum(s), string: s }
}

/// The entries of the first `k` strings by their offsets.
pub open spec fn laid_out(strings: Seq<Seq<char>>, k: int) -> Map<u32, EntryView>
    decreases k,
{
    if k <= 0 || k > strings.len() {
        Map::empty()
    } else {
        laid_out(strings, k - 1).insert(offset_at(strings, k - 1), entry_for(strings[k - 1]))
    }
}

/// The first place at or behind `k` of a string; the length if there is none.
pub open spec fn string_place(strings: Seq<Seq<char>>, s: Seq<char>, k: int) -> int
    decreases strings.len() - k,
{
    if k < 0 || k >= strings.len() || strings[k] == s {
        k
    } else {
        string_place(strings, s, k + 1)
    }
}

/// The strings with one more, which is added if it is not there.
pub open spec fn interned(strings: Seq<Seq<char>>, s: Seq<char>) -> Seq<Seq<char>> {
    if strings.contains(s) {
        strings
    } else {
        strings.push(s)
    }
}

/// The offset of a string that is there.
pub open spec fn string_offset(strings: Seq<Seq<char>>, s: Seq<char>) -> u32 {
    offset_at(strings, string_place(strings, s, 0))
}

/// The offset of a string, where it is there.
pub open spec fn found_offset(strings: Seq<Seq<char>>, s: Seq<char>) -> Option<u32> {
    if strings.contains(s) {
        Some(string_offset(strings, s))
    } else {
        None
    }
}

/// Whether a string is there, or there is room for it: every position is a `usize`.
pub open spec fn fits(strings: Seq<Seq<char>>, s: Seq<char>) -> bool {
    strings.contains(s) || position(strings, strings.len() as int) + entry_size(s) <= usize::MAX
}

/// The strings with one more, which is added if it is not there and there is room for it.
pub open spec fn held(strings: Seq<Seq<char>>, s: Seq<char>) -> Seq<Seq<char>> {
    if fits(strings, s) {
        interned(strings, s)
    } else {
        strings
    }
}

/// The strings with each of some more in turn, which is added if it is not there and there
/// is room for it.
pub open spec fn held_all(strings: Seq<Seq<char>>, more: Seq<Seq<char>>) -> Seq<Seq<char>>
    decreases more.len(),
{
    if more.len() == 0 {
        strings
    } else {
        held(held_all(strings, more.drop_last()), more.last())
    }
}

/// A header with the number of strings and the length of what follows it.
pub open spec fn with_counts(header: Seq<u8>, count: u32, length: u32) -> Seq<u8> {
    Seq::new(
        header.len(),
        |i: int|
            if 8 <= i < 12 {
                bytes::little_endian(count)[i - 8]
            } else if 12 <= i < 16 {
                bytes::little_endian(length)[i - 12]
            } else {
                header[i]
            },
    )
}

/// The table of some strings.
pub open spec fn finished(strings: Seq<Seq<char>>, header: Seq<u8>) -> NamesView {
    let map = laid_out(strings, strings.len() as int);
    let size = NamesView { header, map }.bytes().len();
    NamesView { header: with_counts(header, map.dom().len() as u32, (size - 16) as u32), map }
}

proof fn lemma_place(strings: Seq<Seq<char>>, s: Seq<char>, k: int)
    requires
        0 <= k <= strings.len(),
        forall|i: int| 0 <= i < k ==> strings[i] != s,
    ensures
        k <= string_place(strings, s, k) <= strings.len(),
        strings.contains(s) <==> string_place(strings, s, k) < strings.len(),
        string_place(strings, s, k) < strings.len() ==> strings[string_place(strings, s, k)] == s,
        forall|i: int| 0 <= i < string_place(strings, s, k) ==> strings[i] != s,
    decreases strings.len() - k,
{
    if k < strings.len() && strings[k] != s {
        lemma_place(strings, s, k + 1);
    } else if k < strings.len() {
        assert(strings[k] == s);
    }
}

proof fn lemma_position(strings: Seq<Seq<char>>, k: int)
    ensures
        position(strings, k) >= 20,
    decreases k,
{
    if 0 < k <= strings.len() {
        lemma_position(strings, k - 1);
    }
}

proof fn lemma_prefix(a: Seq<Seq<char>>, b: Seq<Seq<char>>, k: int)
    requires
        0 <= k <= a.len() <= b.len(),
        forall|i: int| 0 <= i < k ==> a[i] == b[i],
    ensures
        position(a, k) == position(b, k),
        laid_out(a, k) == laid_out(b, k),
    decreases k,
{
    if k > 0 {
        lemma_prefix(a, b, k - 1);
    }
}

/// The names of bindings.
spec fn names_of(b: Seq<(Seq<char>, u32)>) -> Seq<Seq<char>> {
    Seq::new(b.len(), |i: int| b[i].0)
}

/// Builds a table of names, string by string.
pub struct NamesBuilder {
    map: BTreeMap<u32, NamesEntry>,
    off_of: NameMap<u32>,
    pos: usize,
}

impl View for NamesBuilder {
    type V = Seq<Seq<char>>;

    /// The strings, in the order in which they came.
    closed spec fn view(&self) -> Seq<Seq<char>> {
        names_of(self.off_of.bindings())
    }
}

impl NamesBuilder {
    /// Whether the table holds the strings.
    pub closed spec fn wf(self) -> bool {
        let strings = names_of(self.off_of.bindings());
        &&& self.pos == position(strings, strings.len() as int)
        &&& entries(self.map@) == laid_out(strings, strings.len() as int)
        &&& forall|s: Seq<char>| #[trigger] self.off_of@.dom().contains(s) <==> strings.contains(s)
        &&& forall|s: Seq<char>| #[trigger]
            self.off_of@.dom().contains(s) ==> self.off_of@[s] == string_offset(strings, s)
    }

    /// The table of no strings.
    pub fn new() -> (r: NamesBuilder)
        ensures
            r.wf(),
            r@ == Seq::<Seq<char>>::empty(),
    {
        let off_of: NameMap<u32> = NameMap::new();
        let n: usize = off_of.len();
        let r = NamesBuilder { map: BTreeMap::new(), off_of, pos: 20 };
        proof {
            assert(r.off_of@.dom().len() == 0);
            assert(r@ =~= Seq::<Seq<char>>::empty());
            assert(entries(r.map@) =~= Map::<u32, EntryView>::empty());
        }
        r
    }

    /// Adds a string, if it is not there. Gives back its offset behind the header.
    pub fn intern(&mut self, s: &str) -> (r: u32)
        requires
            old(self).wf(),
            !old(self)@.contains(s@) ==> position(old(self)@, old(self)@.len() as int) + entry_size(
                s@,
            ) <= usize::MAX,
        ensures
            final(self).wf(),
            final(self)@ == interned(old(self)@, s@),
            r == string_offset(final(self)@, s@),
    {
        let ghost strings = self@;
        match self.off_of.get(s) {
            Some(o) => return o,
            None => {},
        }
        proof {
            lemma_position(strings, strings.len() as int);
        }
        let off: u32 = (self.pos + 4 - 20) as u32;
        let entry = NamesEntry { crc: crc_text(s), string: s.to_owned() };
        let ghost map = entries(self.map@);
        self.map.insert(off, entry);
        let ghost old_names = self.off_of@;
        self.off_of.insert(s, off);
        self.pos = self.pos + 4 + s.len() + 1;
        proof {
            let more = strings.push(s@);
            let n = strings.len() as int;
            assert(!strings.contains(s@));
            assert(self@ =~= more);
            lemma_more(strings, s@, s@);
            lemma_prefix(strings, more, n);
            assert(entries(self.map@) =~= map.insert(off, entry_for(s@)));
            assert forall|t: Seq<char>| #[trigger]
                self.off_of@.dom().contains(t) <==> more.contains(t) by {
                if strings.contains(t) {
                    let i = choose|i: int| 0 <= i < strings.len() && strings[i] == t;
                    assert(more[i] == t);
                }
                if t == s@ {
                    assert(more[n] == t);
                }
                if more.contains(t) && t != s@ {
                    let i = choose|i: int| 0 <= i < more.len() && more[i] == t;
                    assert(strings[i] == t);
                }
                assert(old_names.dom().contains(t) <==> strings.contains(t));
            }
            assert forall|t: Seq<char>| #[trigger]
                self.off_of@.dom().contains(t) implies self.off_of@[t] == string_offset(
                more,
                t,
            ) by {
                lemma_more(strings, s@, t);
                assert(old_names.dom().contains(t) <==> strings.contains(t));
            }
        }
        off
    }

    /// The offset of a string behind the header, where it is there.
    pub fn lookup(&self, s: &str) -> (r: Option<u32>)
        requires
            self.wf(),
        ensures
            r == found_offset(self@, s@),
    {
        self.off_of.get(s)
    }

    /// Adds a string, if it is not there and there is room for it. Gives back its offset
    /// behind the header, where it is there then.
    pub fn hold(&mut self, s: &str) -> (r: Option<u32>)
        requires
            old(self).wf(),
        ensures
            final(self).wf(),
            final(self)@ == held(old(self)@, s@),
            r == found_offset(final(self)@, s@),
    {
        match self.off_of.get(s) {
            Some(o) => return Some(o),
            None => {},
        }
        assert(!self@.contains(s@));
        let room: usize = usize::MAX - self.pos;
        let size: usize = s.as_bytes().len();
        assert(entry_size(s@) == size + 5);
        if room < 5 || room - 5 < size {
            return None;
        }
        let o = self.intern(s);
        proof {
            interned_strings_keep_their_offsets(old(self)@, s@, s@);
        }
        Some(o)
    }

    /// Whether a string is not there, and there is room for it.
    pub fn can_add(&self, s: &str) -> (r: bool)
        requires
            self.wf(),
        ensures
            r == (!self@.contains(s@) && fits(self@, s@)),
    {
        if self.off_of.get(s).is_some() {
            return false;
        }
        assert(!self@.contains(s@));
        let room: usize = usize::MAX - self.pos;
        let size: usize = s.as_bytes().len();
        assert(entry_size(s@) == size + 5);
        5 <= room && size <= room - 5
    }

    /// The offset of a string in the table with `s` added, which is not there.
    pub fn lookup_with(&self, s: &str, string: &str) -> (r: Option<u32>)
        requires
            self.wf(),
            !self@.contains(s@),
            fits(self@, s@),
        ensures
            r == found_offset(self@.push(s@), string@),
    {
        let ghost strings = self@;
        let ghost more = strings.push(s@);
        proof {
            lemma_position(strings, strings.len() as int);
            lemma_more(strings, s@, string@);
            assert(more[strings.len() as int] == s@);
            if strings.contains(string@) {
                let i = choose|i: int| 0 <= i < strings.len() && strings[i] == string@;
                assert(more[i] == string@);
            }
            if more.contains(string@) && string@ != s@ {
                let i = choose|i: int| 0 <= i < more.len() && more[i] == string@;
                assert(strings[i] == string@);
            }
        }
        if same(s, string) {
            Some((self.pos + 4 - 20) as u32)
        } else {
            self.off_of.get(string)
        }
    }

    /// The table of the strings. The number of strings and the length of what
    /// follows are put in the header.
    pub fn finalize(self, header_bytes: [u8; 20]) -> (r: Names)
        requires
            self.wf(),
        ensures
            r@ == finished(self@, header_bytes@),
    {
        let ghost strings = self@;
        let count: u32 = self.map.len() as u32;
        let names = Names { header_bytes, map: self.map };
        let length: u32 = (names.to_bytes().len() - 16) as u32;
        proof {
            assert(names@.map == laid_out(strings, strings.len() as int));
            assert(entries(self.map@).dom() =~= self.map@.dom());
        }
        let mut counts: Vec<u8> = Vec::new();
        put_u32(&mut counts, count);
        put_u32(&mut counts, length);
        let mut header: [u8; 20] = header_bytes;
        let mut i: usize = 0;
        while i < 8
            invariant
                i <= 8,
                counts@ == bytes::little_endian(count) + bytes::little_endian(length),
                forall|j: int|
                    0 <= j < 20 ==> header@[j] == (if 8 <= j < 8 + i {
                        counts@[j - 8]
                    } else {
                        header_bytes@[j]
                    }),
            decreases 8 - i,
        {
            header[8 + i] = counts[i];
            i = i + 1;
        }
        assert(header@ =~= with_counts(header_bytes@, count, length));
        Names { header_bytes: header, map: names.map }
    }
}

proof fn lemma_more(strings: Seq<Seq<char>>, s: Seq<char>, t: Seq<char>)
    requires
        !strings.contains(s),
    ensures
        t != s && strings.contains(t) ==> string_offset(strings.push(s), t) == string_offset(
            strings,
            t,
        ),
        t == s ==> string_offset(strings.push(s), t) == offset_at(strings, strings.len() as int),
{
    let more = strings.push(s);
    let n = strings.len() as int;
    lemma_place(more, t, 0);
    lemma_place(strings, t, 0);
    let i = string_place(more, t, 0);
    let j = string_place(strings, t, 0);
    if t == s {
        assert(more[n] == t);
        assert(i == n) by {
            if i < n {
                assert(strings[i] == t);
            }
        }
        lemma_prefix(strings, more, n);
    } else if strings.contains(t) {
        assert(more[j] == t);
        assert(i == j) by {
            if i < j {
                assert(strings[i] == t);
            }
        }
        lemma_prefix(strings, more, j);
    }
}

/// Adding a string again changes nothing, and a string keeps its offset whatever is
/// added.
pub proof fn interned_strings_keep_their_offsets(
    strings: Seq<Seq<char>>,
    s: Seq<char>,
    t: Seq<char>,
)
    ensures
        interned(interned(strings, s), s) == interned(strings, s),
        interned(strings, s).contains(s),
        strings.contains(t) ==> interned(strings, s).contains(t),
        strings.contains(t) ==> string_offset(interned(strings, s), t) == string_offset(
            strings,
            t,
        ),
{
    if !strings.contains(s) {
        let more = strings.push(s);
        assert(more[strings.len() as int] == s);
        lemma_more(strings, s, t);
        if strings.contains(t) {
            let i = choose|i: int| 0 <= i < strings.len() && strings[i] == t;
            assert(more[i] == t);
        }
    }
}

/// The strings with each of some more, which is added if it is not there.
pub open spec fn interned_all(strings: Seq<Seq<char>>, more: Seq<Seq<char>>) -> Seq<Seq<char>>
    decreases more.len(),
{
    if more.len() == 0 {
        strings
    } else {
        interned(interned_all(strings, more.drop_last()), more.last())
    }
}

proof fn lemma_interned_all(strings: Seq<Seq<char>>, more: Seq<Seq<char>>, s: Seq<char>)
    requires
        strings.contains(s),
    ensures
        interned_all(strings, more).contains(s),
        string_offset(interned_all(strings, more), s) == string_offset(strings, s),
    decreases more.len(),
{
    if more.len() > 0 {
        let before = interned_all(strings, more.drop_last());
        lemma_interned_all(strings, more.drop_last(), s);
        interned_strings_keep_their_offsets(before, more.last(), s);
    }
}

/// The entry of a string that is added stands behind the others.
pub proof fn lemma_push(strings: Seq<Seq<char>>, s: Seq<char>)
    ensures
        position(strings.push(s), strings.len() as int + 1) == position(
            strings,
            strings.len() as int,
        ) + entry_size(s),
{
    lemma_prefix(strings, strings.push(s), strings.len() as int);
}

/// Holding strings and then others is holding all of them.
pub proof fn lemma_held_concat(strings: Seq<Seq<char>>, a: Seq<Seq<char>>, b: Seq<Seq<char>>)
    ensures
        held_all(strings, a + b) == held_all(held_all(strings, a), b),
    decreases b.len(),
{
    if b.len() == 0 {
        assert(a + b =~= a);
    } else {
        assert((a + b).drop_last() =~= a + b.drop_last());
        lemma_held_concat(strings, a, b.drop_last());
    }
}

/// Holding a string adds no other.
pub proof fn lemma_held_new(strings: Seq<Seq<char>>, s: Seq<char>, t: Seq<char>)
    ensures
        t != s ==> held(strings, s).contains(t) == strings.contains(t),
{
    if !strings.contains(s) && t != s && strings.push(s).contains(t) {
        let i = choose|i: int| 0 <= i < strings.push(s).len() && strings.push(s)[i] == t;
        assert(strings[i] == t);
    }
    if strings.contains(t) {
        interned_strings_keep_their_offsets(strings, s, t);
    }
}

/// A string stays, and keeps its offset, whatever is held behind it.
pub proof fn lemma_held_keeps(strings: Seq<Seq<char>>, more: Seq<Seq<char>>, s: Seq<char>)
    ensures
        strings.contains(s) ==> held_all(strings, more).contains(s) && string_offset(
            held_all(strings, more),
            s,
        ) == string_offset(strings, s),
    decreases more.len(),
{
    if more.len() > 0 {
        lemma_held_keeps(strings, more.drop_last(), s);
        interned_strings_keep_their_offsets(
            held_all(strings, more.drop_last()),
            more.last(),
            s,
        );
    }
}

/// Where there is room for strings, holding them is interning them.
pub proof fn holding_is_interning(strings: Seq<Seq<char>>, more: Seq<Seq<char>>)
    requires
        ({
            let end = interned_all(strings, more);
            position(end, end.len() as int) <= usize::MAX
        }),
    ensures
        held_all(strings, more) == interned_all(strings, more),
    decreases more.len(),
{
    if more.len() > 0 {
        let before = interned_all(strings, more.drop_last());
        let end = interned_all(strings, more);
        lemma_prefix(before, end, before.len() as int);
        lemma_monotone(end, before.len() as int, end.len() as int);
        holding_is_interning(strings, more.drop_last());
    }
}

/// Whatever is added behind a string, adding it again adds nothing and gives the offset
/// that it had; and no other string has that offset, while the offsets fit.
pub proof fn an_offset_belongs_to_one_string(
    strings: Seq<Seq<char>>,
    s: Seq<char>,
    more: Seq<Seq<char>>,
    t: Seq<char>,
)
    requires
        ({
            let end = interned(interned_all(interned(strings, s), more), t);
            position(end, end.len() as int) <= u32::MAX
        }),
    ensures
        ({
            let first = interned(strings, s);
            let then = interned_all(first, more);
            &&& interned(then, s) == then
            &&& string_offset(then, s) == string_offset(first, s)
            &&& t != s ==> string_offset(interned(then, t), t) != string_offset(first, s)
        }),
{
    let first = interned(strings, s);
    let then = interned_all(first, more);
    let end = interned(then, t);
    interned_strings_keep_their_offsets(strings, s, s);
    lemma_interned_all(first, more, s);
    interned_strings_keep_their_offsets(then, t, s);
    interned_strings_keep_their_offsets(then, t, t);
    if t != s {
        lemma_place(end, s, 0);
        lemma_place(end, t, 0);
        let i = string_place(end, s, 0);
        let j = string_place(end, t, 0);
        assert(i != j);
        lemma_position(end, i);
        lemma_position(end, j);
        lemma_monotone(end, i, end.len() as int);
        lemma_monotone(end, j, end.len() as int);
        if i < j {
            lemma_monotone(end, i, j);
        } else {
            lemma_monotone(end, j, i);
        }
    }
}

// ── Reading back ─────────────────────────────────────────────────────────────

/// The bytes of the entries of the first `k` strings, one behind the other.
spec fn stream(strings: Seq<Seq<char>>, k: int) -> Seq<u8>
    decreases k,
{
    if k <= 0 || k > strings.len() {
        Seq::empty()
    } else {
        stream(strings, k - 1) + entry_for(strings[k - 1]).bytes()
    }
}

proof fn lemma_monotone(strings: Seq<Seq<char>>, i: int, j: int)
    requires
        0 <= i <= j <= strings.len(),
    ensures
        position(strings, i) <= position(strings, j),
        i < j ==> position(strings, i) + 5 <= position(strings, j),
    decreases j - i,
{
    if i < j {
        lemma_monotone(strings, i, j - 1);
    }
}

proof fn lemma_laid_out(strings: Seq<Seq<char>>, k: int)
    requires
        0 <= k <= strings.len(),
        position(strings, k) <= LIMIT + 16,
    ensures
        forall|o: u32| #[trigger]
            laid_out(strings, k).dom().contains(o) ==> 4 <= o < position(strings, k) - 16,
        content(laid_out(strings, k), 0, LIMIT as int) == stream(strings, k),
        stream(strings, k).len() == position(strings, k) - 20,
    decreases k,
{
    if k == 0 {
        lemma_gap(laid_out(strings, k), 0, LIMIT as int);
    } else {
        lemma_position(strings, k - 1);
        lemma_laid_out(strings, k - 1);
        let before = laid_out(strings, k - 1);
        let at = offset_at(strings, k - 1);
        let all = laid_out(strings, k);
        assert(at == position(strings, k - 1) - 16);
        lemma_split(before, 0, at as int, LIMIT as int);
        lemma_gap(before, at as int, LIMIT as int);
        assert forall|i: u32| 0 <= i < at implies #[trigger] agree(before, all, i) by {}
        lemma_same(before, all, 0, at as int);
        lemma_one(all, at, LIMIT as int);
        lemma_split(all, 0, at as int, LIMIT as int);
        assert(content(all, 0, LIMIT as int) =~= stream(strings, k));
    }
}

/// Whether two tables hold the same at an offset.
spec fn agree(a: Map<u32, EntryView>, b: Map<u32, EntryView>, k: u32) -> bool {
    a.dom().contains(k) == b.dom().contains(k) && a[k] == b[k]
}

proof fn lemma_same(a: Map<u32, EntryView>, b: Map<u32, EntryView>, lo: int, hi: int)
    requires
        forall|k: u32| lo <= k < hi ==> #[trigger] agree(a, b, k),
    ensures
        content(a, lo, hi) == content(b, lo, hi),
    decreases hi - lo,
{
    if lo < hi {
        lemma_same(a, b, lo, hi - 1);
        if 0 <= hi - 1 <= u32::MAX {
            assert(agree(a, b, (hi - 1) as u32));
        }
    }
}

proof fn lemma_no_zero_byte(c: u32)
    requires
        0 < c,
    ensures
        forall|i: int|
            0 <= i < vstd::utf8::encode_scalar(c).len() ==> vstd::utf8::encode_scalar(c)[i] != 0,
{
    assert(c <= 0x7f ==> (c & 0x7F) as u8 != 0) by (bit_vector)
        requires
            0 < c,
    ;
    assert((0xC0u8 | ((c >> 6) & 0x1F) as u8) != 0) by (bit_vector);
    assert((0xE0u8 | ((c >> 12) & 0x0F) as u8) != 0) by (bit_vector);
    assert((0xF0u8 | ((c >> 18) & 0x7) as u8) != 0) by (bit_vector);
    assert((0x80u8 | (c & 0x3F) as u8) != 0) by (bit_vector);
    assert((0x80u8 | ((c >> 6) & 0x3F) as u8) != 0) by (bit_vector);
    assert((0x80u8 | ((c >> 12) & 0x3F) as u8) != 0) by (bit_vector);
}

/// Whether a string holds no zero character.
pub open spec fn without_zero(s: Seq<char>) -> bool {
    forall|i: int| 0 <= i < s.len() ==> #[trigger] s[i] as u32 != 0
}

proof fn lemma_no_zero(s: Seq<char>)
    requires
        without_zero(s),
    ensures
        forall|i: int|
            0 <= i < vstd::utf8::encode_utf8(s).len() ==> vstd::utf8::encode_utf8(s)[i] != 0,
    decreases s.len(),
{
    if s.len() > 0 {
        let c = s[0] as u32;
        assert(s[0] as u32 != 0);
        lemma_no_zero_byte(c);
        let rest = s.drop_first();
        assert forall|i: int| 0 <= i < rest.len() implies #[trigger] rest[i] as u32 != 0 by {
            assert(s[i + 1] as u32 != 0);
        }
        lemma_no_zero(rest);
        let first = vstd::utf8::encode_scalar(c);
        let more = vstd::utf8::encode_utf8(rest);
        assert(vstd::utf8::encode_utf8(s) == first + more);
        assert forall|i: int| 0 <= i < (first + more).len() implies (first + more)[i] != 0 by {
            if i < first.len() {
                assert((first + more)[i] == first[i]);
            } else {
                assert((first + more)[i] == more[i - first.len()]);
            }
        }
    }
}

proof fn lemma_first_zero(b: Seq<u8>, k: int, end: int)
    requires
        0 <= k <= end < b.len(),
        forall|i: int| k <= i < end ==> b[i] != 0,
        b[end] == 0,
    ensures
        terminator(b, k) == end,
    decreases end - k,
{
    if k < end {
        lemma_first_zero(b, k + 1, end);
    }
}

proof fn lemma_stream_part(strings: Seq<Seq<char>>, k: int, n: int)
    requires
        0 <= k < n <= strings.len(),
    ensures
        stream(strings, n).len() == position(strings, n) - 20,
        stream(strings, n).subrange(position(strings, k) - 20, position(strings, k + 1) - 20)
            == entry_for(strings[k]).bytes(),
    decreases n,
{
    lemma_position(strings, k);
    lemma_stream_len(strings, n - 1);
    lemma_stream_len(strings, n);
    lemma_monotone(strings, k + 1, n);
    if k + 1 == n {
        assert(stream(strings, n).subrange(
            position(strings, k) - 20,
            position(strings, k + 1) - 20,
        ) =~= entry_for(strings[k]).bytes());
    } else {
        lemma_stream_part(strings, k, n - 1);
        lemma_monotone(strings, k + 1, n - 1);
        assert(stream(strings, n).subrange(
            position(strings, k) - 20,
            position(strings, k + 1) - 20,
        ) =~= stream(strings, n - 1).subrange(
            position(strings, k) - 20,
            position(strings, k + 1) - 20,
        ));
    }
}

proof fn lemma_stream_len(strings: Seq<Seq<char>>, k: int)
    requires
        0 <= k <= strings.len(),
    ensures
        stream(strings, k).len() == position(strings, k) - 20,
    decreases k,
{
    if k > 0 {
        lemma_stream_len(strings, k - 1);
    }
}

proof fn lemma_read_back(strings: Seq<Seq<char>>, b: Seq<u8>, k: int)
    requires
        0 <= k <= strings.len(),
        position(strings, strings.len() as int) <= LIMIT + 16,
        forall|i: int| 0 <= i < strings.len() ==> #[trigger] without_zero(strings[i]),
        b.len() == position(strings, strings.len() as int),
        b.skip(20) == stream(strings, strings.len() as int),
    ensures
        entries_from(b, position(strings, k), laid_out(strings, k)) == Ok::<_, NamesError>(
            laid_out(strings, strings.len() as int),
        ),
    decreases strings.len() - k,
{
    let n = strings.len() as int;
    lemma_position(strings, k);
    lemma_monotone(strings, k, n);
    if k < n {
        let off = position(strings, k);
        let next = position(strings, k + 1);
        let e = entry_for(strings[k]);
        let text = vstd::utf8::encode_utf8(strings[k]);
        lemma_monotone(strings, k + 1, n);
        lemma_stream_part(strings, k, n);
        assert(b.subrange(off, next) =~= b.skip(20).subrange(off - 20, next - 20));
        let part = b.subrange(off, next);
        assert(part == e.bytes());
        assert forall|i: int| off <= i < next implies b[i] == #[trigger] e.bytes()[i - off] by {
            assert(part[i - off] == b[i]);
        }
        assert(without_zero(strings[k]));
        lemma_no_zero(strings[k]);
        assert forall|i: int| off + 4 <= i < next - 1 implies b[i] != 0 by {
            assert(b[i] == e.bytes()[i - off]);
            assert(e.bytes()[i - off] == text[i - off - 4]);
        }
        assert(b[next - 1] == e.bytes()[next - 1 - off]);
        lemma_first_zero(b, off + 4, next - 1);
        assert(b.subrange(off + 4, next - 1) =~= text) by {
            assert forall|i: int| 0 <= i < text.len() implies b.subrange(off + 4, next - 1)[i]
                == text[i] by {
                assert(b[off + 4 + i] == e.bytes()[4 + i]);
            }
        }
        assert(b.subrange(off, off + 4) =~= bytes::little_endian(e.crc)) by {
            assert forall|i: int| 0 <= i < 4 implies b.subrange(off, off + 4)[i]
                == bytes::little_endian(e.crc)[i] by {
                assert(b[off + i] == e.bytes()[i]);
            }
        }
        bytes::lemma_little_endian(e.crc);
        vstd::utf8::encode_utf8_valid_utf8(strings[k]);
        vstd::utf8::encode_utf8_decode_utf8(strings[k]);
        assert(entry_at(b, off) == Ok::<_, NamesEntryError>((e, next)));
        lemma_read_back(strings, b, k + 1);
    }
}

/// The table of some strings reads back from its bytes: every string is at its
/// offset. The strings hold no zero character, and the offsets fit.
pub proof fn a_table_reads_back(strings: Seq<Seq<char>>, header: Seq<u8>)
    requires
        header.len() == 20,
        position(strings, strings.len() as int) <= LIMIT + 16,
        forall|i: int| 0 <= i < strings.len() ==> #[trigger] without_zero(strings[i]),
    ensures
        table_of(finished(strings, header).bytes()) == Ok::<NamesView, NamesError>(
            finished(strings, header),
        ),
{
    let n = strings.len() as int;
    let whole = finished(strings, header);
    let b = whole.bytes();
    lemma_laid_out(strings, n);
    assert(b.skip(20) =~= stream(strings, n));
    lemma_read_back(strings, b, 0);
    assert(b.subrange(0, 20) =~= whole.header);
}

} // verus!
