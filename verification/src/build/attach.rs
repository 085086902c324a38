//! The blocks of definitions, attached to the entries of a binary: each becomes an entry
//! of its own behind the named ones, and its owner gets a table that points at it.

use vstd::prelude::*;

use crate::build::bin;
use crate::build::bin::{NamedView, OwnedBlocks, OwnedOutcome, OwnedView};
use crate::build::blocks;
use crate::build::blocks::{
    move_behind, LoweredBlock, LoweredView, Shared, StoredBlock, StoredView, SubDef, SubDefRecord,
    SubDefs, SubView,
};
use crate::build::diagnostics::DiagnosticView;
use crate::build::emit;
use crate::build::emit::{
    table_for, Built, BuiltView, Emitted, Entries, EntryPreamble, NamedOutcome,
    SourcesView,
};
use crate::build::linking::LinkView;
use crate::text::base;
use crate::value::copy_bytes;

verus! {

broadcast use base::group_views;

/// The stored blocks of a definition, and the index of the definition.
#[derive(Debug)]
pub struct OwnedStored {
    pub owner: u32,
    pub blocks: Vec<StoredBlock>,
}

/// What an [`OwnedStored`] holds.
pub struct OwnedStoredView {
    pub owner: u32,
    pub blocks: Seq<StoredView>,
}

impl View for OwnedStored {
    type V = OwnedStoredView;

    open spec fn view(&self) -> OwnedStoredView {
        OwnedStoredView { owner: self.owner, blocks: base::views(self.blocks@) }
    }
}

/// How many blocks the first `k` owners have.
pub open spec fn total(owned: Seq<OwnedStoredView>, k: int) -> nat
    decreases k,
{
    if k <= 0 || k > owned.len() {
        0
    } else {
        total(owned, k - 1) + owned[k - 1].blocks.len()
    }
}

/// Whether no entry has blocks yet.
pub open spec fn fresh(entries: Seq<BuiltView>) -> bool {
    forall|i: int|
        0 <= i < entries.len() ==> match (#[trigger] entries[i]).sub_defs {
            Some(t) => t.len() == 0,
            None => true,
        }
}

/// Whether every owner is an entry.
pub open spec fn owners_within(owned: Seq<OwnedStoredView>, n: int) -> bool {
    forall|i: int| 0 <= i < owned.len() ==> (#[trigger] owned[i]).owner < n
}

/// The definitions behind the blocks of the first `k` owners, and the entries with the
/// tables of those owners.
pub open spec fn tables_upto(
    s: Shared,
    entries: Seq<BuiltView>,
    owned: Seq<OwnedStoredView>,
    k: int,
) -> (Shared, Seq<BuiltView>)
    decreases k,
{
    if k <= 0 || k > owned.len() {
        (s, entries)
    } else {
        let (before, with) = tables_upto(s, entries, owned, k - 1);
        let o = owned[k - 1];
        let (after, table) = blocks::tabled(before, o.owner, o.blocks, o.blocks.len() as int);
        let owner = o.owner as int;
        (after, with.update(owner, BuiltView { sub_defs: Some(table), ..with[owner] }))
    }
}

/// An entry whose blocks stand behind `base` others.
pub open spec fn moved_entry(e: BuiltView, base: u32) -> BuiltView {
    BuiltView {
        sub_defs: match e.sub_defs {
            Some(t) => Some(blocks::moved(t, base)),
            None => None,
        },
        ..e
    }
}

/// The entry of a definition without a name.
pub open spec fn sub_entry(tables: Seq<Seq<char>>, s: SubView) -> BuiltView {
    BuiltView {
        def_name_off: s.def_name_off,
        file_name_off: u32::MAX,
        counter: s.counter,
        preamble: emit::named_preamble(),
        sub_defs: emit::empty_table(tables, s.tag),
        body: s.body,
    }
}

/// The definitions without names that the blocks come to, each once.
pub open spec fn subs_of(st: Emitted, owned: Seq<OwnedStoredView>) -> Seq<SubView> {
    let none = Shared { subs: Seq::empty(), counters: st.counters };
    tables_upto(none, st.entries, owned, owned.len() as int).0.subs
}

/// The entries with the tables of their blocks, and behind them the blocks.
pub open spec fn attached(
    tables: Seq<Seq<char>>,
    st: Emitted,
    owned: Seq<OwnedStoredView>,
) -> Emitted {
    let none = Shared { subs: Seq::empty(), counters: st.counters };
    let (s, entries) = tables_upto(none, st.entries, owned, owned.len() as int);
    let base = st.entries.len() as u32;
    Emitted {
        entries: Seq::new(entries.len(), |i: int| moved_entry(entries[i], base)) + Seq::new(
            s.subs.len(),
            |i: int| sub_entry(tables, s.subs[i]),
        ),
        counters: s.counters,
    }
}

proof fn lemma_tabled_counts(
    s: Shared,
    owner: u32,
    v: Seq<StoredView>,
    k: int,
    n: int,
)
    requires
        0 <= k <= v.len(),
        0 <= n,
        n + k < u32::MAX,
        emit::counts_upto(s.counters, n),
    ensures
        emit::counts_upto(blocks::tabled(s, owner, v, k).0.counters, n + k),
    decreases k,
{
    if k > 0 {
        lemma_tabled_counts(s, owner, v, k - 1, n);
        let before = blocks::tabled(s, owner, v, k - 1).0;
        let b = v[k - 1];
        let after = blocks::with_sub(before, b);
        assert forall|c: Seq<char>| after.counters.contains_key(c) implies (
        #[trigger] after.counters[c]) <= n + k by {
            if before.counters.contains_key(c) {
                assert(before.counters[c] <= n + k - 1);
            }
        }
    }
}

/// Whether the first `k` owners have tables that point at definitions with the classes
/// and the bytes of their blocks.
spec fn tables_point(
    subs: Seq<SubView>,
    entries: Seq<BuiltView>,
    owned: Seq<OwnedStoredView>,
    k: int,
) -> bool {
    forall|j: int|
        0 <= j < k ==> points(
            subs,
            entries[(#[trigger] owned[j]).owner as int].sub_defs,
            owned[j],
            0,
        )
}

/// Whether a table of an owner points at definitions with the classes and the bytes of
/// its blocks, where the definitions stand behind `base` others.
pub open spec fn points(
    subs: Seq<SubView>,
    table: Option<Seq<SubDefRecord>>,
    o: OwnedStoredView,
    base: int,
) -> bool {
    table matches Some(t) && t.len() == o.blocks.len() && forall|i: int|
        0 <= i < t.len() ==> {
            &&& (#[trigger] t[i]).name_crc == o.blocks[i].crc
            &&& t[i].owner_index == o.owner
            &&& base <= t[i].def_index < base + subs.len()
            &&& subs[t[i].def_index - base].tag == o.blocks[i].tag
            &&& subs[t[i].def_index - base].bytes == o.blocks[i].bytes
        }
}

/// Whether every record of every entry points at one of the definitions.
spec fn in_reach(entries: Seq<BuiltView>, n: int) -> bool {
    forall|i: int, r: int|
        0 <= i < entries.len() && entries[i].sub_defs is Some && 0 <= r
            < entries[i].sub_defs->0.len() ==> (#[trigger] entries[i].sub_defs->0[r]).def_index < n
}

spec fn owners_differ(owned: Seq<OwnedStoredView>) -> bool {
    forall|i: int, j: int|
        0 <= i < j < owned.len() ==> (#[trigger] owned[i]).owner != (#[trigger] owned[j]).owner
}

proof fn lemma_tables(
    s: Shared,
    entries: Seq<BuiltView>,
    owned: Seq<OwnedStoredView>,
    k: int,
)
    requires
        0 <= k <= owned.len(),
        s.subs.len() == 0,
        fresh(entries),
        owners_within(owned, entries.len() as int),
        entries.len() + total(owned, k) < u32::MAX,
        emit::counts_upto(s.counters, entries.len() as int),
    ensures
        ({
            let (after, with) = tables_upto(s, entries, owned, k);
            &&& with.len() == entries.len()
            &&& after.subs.len() <= total(owned, k)
            &&& blocks::all_differ(after.subs)
            &&& emit::counts_upto(after.counters, (entries.len() + total(owned, k)) as int)
            &&& in_reach(with, after.subs.len() as int)
            &&& owners_differ(owned) ==> tables_point(after.subs, with, owned, k)
            &&& forall|i: int| 0 <= i < entries.len() ==> {
                &&& (#[trigger] with[i]).def_name_off == entries[i].def_name_off
                &&& with[i].file_name_off == entries[i].file_name_off
                &&& with[i].counter == entries[i].counter
                &&& with[i].preamble == entries[i].preamble
                &&& with[i].body == entries[i].body
            }
        }),
    decreases k,
{
    if k > 0 {
        lemma_tables(s, entries, owned, k - 1);
        let (before, with) = tables_upto(s, entries, owned, k - 1);
        let o = owned[k - 1];
        let n = o.blocks.len() as int;
        lemma_tabled_counts(before,
            o.owner,
            o.blocks,
            n,
            (entries.len() + total(owned, k - 1)) as int,
        );
        blocks::a_table_points_at_its_blocks(before, o.owner, o.blocks, n);
        let (after, table) = blocks::tabled(before, o.owner, o.blocks, n);
        let next = tables_upto(s, entries, owned, k).1;
        let own = o.owner as int;
        assert(next[own].sub_defs == Some(table));
        assert forall|i: int, r: int|
            0 <= i < next.len() && next[i].sub_defs is Some && 0 <= r
                < next[i].sub_defs->0.len() implies (#[trigger] next[i].sub_defs->0[r]).def_index
            < after.subs.len() by {
            if i != own {
                assert(next[i] == with[i]);
                assert(with[i].sub_defs->0[r].def_index < before.subs.len());
            }
        }
        if owners_differ(owned) {
            assert forall|j: int| 0 <= j < k implies points(
                after.subs,
                next[(#[trigger] owned[j]).owner as int].sub_defs,
                owned[j],
                0,
            ) by {
                if j < k - 1 {
                    assert(owned[j].owner != owned[k - 1].owner);
                    assert(next[owned[j].owner as int] == with[owned[j].owner as int]);
                    assert(points(before.subs, with[owned[j].owner as int].sub_defs, owned[j], 0));
                    let t = with[owned[j].owner as int].sub_defs->0;
                    assert forall|i: int| 0 <= i < t.len() implies {
                        &&& (#[trigger] t[i]).name_crc == owned[j].blocks[i].crc
                        &&& t[i].owner_index == owned[j].owner
                        &&& 0 <= t[i].def_index < after.subs.len()
                        &&& after.subs[t[i].def_index - 0].tag == owned[j].blocks[i].tag
                        &&& after.subs[t[i].def_index - 0].bytes == owned[j].blocks[i].bytes
                    } by {
                        assert(after.subs[t[i].def_index as int] == before.subs[t[i].def_index as int]);
                    }
                }
            }
        }
    }
}

fn entry_of(s: &SubDef, tables: &Vec<&str>) -> (r: Built)
    ensures
        r@ == sub_entry(base::views(tables@), s@),
{
    Built {
        def_name_off: s.def_name_off,
        file_name_off: u32::MAX,
        counter: s.counter,
        preamble: EntryPreamble { is_real: true, is_template: false, unknown_0: 1 },
        sub_defs: table_for(tables, s.tag.as_str()),
        body: s.body.clone(),
    }
}

fn move_tables(entries: &mut Vec<Built>, base: u32, n: Ghost<int>)
    requires
        in_reach(base::views(old(entries)@), n@),
        base + n@ <= u32::MAX,
    ensures
        base::views(final(entries)@) == Seq::new(
            old(entries)@.len(),
            |i: int| moved_entry(base::views(old(entries)@)[i], base),
        ),
{
    let ghost before = base::views(entries@);
    let mut i: usize = 0;
    while i < entries.len()
        invariant
            i <= entries@.len(),
            before == base::views(old(entries)@),
            before.len() == entries@.len(),
            in_reach(before, n@),
            base + n@ <= u32::MAX,
            forall|j: int|
                0 <= j < entries@.len() ==> (#[trigger] entries@[j])@ == if j < i {
                    moved_entry(before[j], base)
                } else {
                    before[j]
                },
        decreases entries@.len() - i,
    {
        assert(entries@[i as int]@ == before[i as int]);
        match &mut entries[i].sub_defs {
            Some(table) => {
                proof {
                    assert forall|r: int| 0 <= r < table@.len() implies (
                    #[trigger] table@[r]).def_index + base <= u32::MAX by {
                        assert(before[i as int].sub_defs->0[r].def_index < n@);
                    }
                }
                move_behind(table, base);
            },
            None => {},
        }
        i = i + 1;
    }
    assert(base::views(entries@) =~= Seq::new(
        old(entries)@.len(),
        |i: int| moved_entry(before[i], base),
    ));
}

/// Attaches the blocks of definitions to the entries of a binary. Each owner gets a table
/// of its blocks, and blocks of one class with the same bytes are one entry, behind those
/// that are there. Gives back how many entries were added.
pub fn attach_blocks(
    entries: &mut Entries,
    owned: &Vec<OwnedStored>,
    tables: &Vec<&str>,
) -> (r: usize)
    requires
        fresh(old(entries)@.entries),
        emit::counts_upto(old(entries)@.counters, old(entries)@.entries.len() as int),
        owners_within(base::views(owned@), old(entries)@.entries.len() as int),
        old(entries)@.entries.len() + total(base::views(owned@), owned@.len() as int) < u32::MAX,
    ensures
        final(entries)@ == attached(
            base::views(tables@),
            old(entries)@,
            base::views(owned@),
        ),
        r == subs_of(old(entries)@, base::views(owned@)).len(),
{
    let ghost all = base::views(owned@);
    let ghost start = entries@;
    let ghost none = Shared { subs: Seq::empty(), counters: start.counters };
    let base = entries.entries.len() as u32;
    let mut subs = SubDefs::new();
    let mut k: usize = 0;
    while k < owned.len()
        invariant
            k <= owned@.len(),
            all == base::views(owned@),
            fresh(start.entries),
            emit::counts_upto(start.counters, start.entries.len() as int),
            owners_within(all, start.entries.len() as int),
            start.entries.len() + total(all, all.len() as int) < u32::MAX,
            none == (Shared { subs: Seq::<SubView>::empty(), counters: start.counters }),
            (Shared { subs: subs@, counters: entries@.counters }, entries@.entries)
                == tables_upto(none, start.entries, all, k as int),
        decreases owned@.len() - k,
    {
        let ghost with = entries@.entries;
        let ghost n = (start.entries.len() + total(all, k as int)) as int;
        proof {
            assert(all[k as int] == owned@[k as int]@);
            lemma_total(all, k as int + 1);
            lemma_total(all, k as int);
            lemma_tables(none, start.entries, all, k as int);
            assert(emit::counts_upto(entries@.counters, n));
        }
        let o = &owned[k];
        let table = subs.table(o.owner, &o.blocks, &mut entries.class_index);
        let i = o.owner as usize;
        entries.entries[i].sub_defs = Some(table);
        proof {
            assert(entries@.entries =~= with.update(
                i as int,
                BuiltView { sub_defs: Some(table@), ..with[i as int] },
            ));
        }
        k = k + 1;
    }
    let ghost tabled = entries@.entries;
    proof {
        lemma_tables(none, start.entries, all, all.len() as int);
    }
    move_tables(&mut entries.entries, base, Ghost(subs@.len() as int));
    let ghost moved = entries@.entries;
    let n: usize = subs.entries.len();
    let mut k: usize = 0;
    assert(moved + Seq::new(0, |i: int| sub_entry(base::views(tables@), subs@[i])) =~= moved);
    while k < n
        invariant
            k <= n,
            n == subs.entries@.len(),
            entries@.entries == moved + Seq::new(
                k as nat,
                |i: int| sub_entry(base::views(tables@), subs@[i]),
            ),
            entries@.counters == tables_upto(none,
                start.entries,
                all,
                all.len() as int,
            ).0.counters,
        decreases n - k,
    {
        assert(subs@[k as int] == subs.entries@[k as int]@);
        entries.entries.push(entry_of(&subs.entries[k], tables));
        k = k + 1;
        assert(entries@.entries =~= moved + Seq::new(
            k as nat,
            |i: int| sub_entry(base::views(tables@), subs@[i]),
        ));
    }
    assert(entries@ == attached(base::views(tables@), start, all));
    n
}

proof fn lemma_total(owned: Seq<OwnedStoredView>, k: int)
    requires
        0 <= k <= owned.len(),
    ensures
        total(owned, k) <= total(owned, owned.len() as int),
    decreases owned.len() - k,
{
    if k < owned.len() {
        lemma_total(owned, k + 1);
    }
}

// ── From lowered blocks to stored ones ───────────────────────────────────────

/// A lowered block with the bytes that it is stored as.
pub open spec fn stored_block(b: LoweredView, bytes: Seq<u8>) -> StoredView {
    StoredView { crc: b.crc, tag: b.tag, def_name_off: b.def_name_off, bytes, body: b.body }
}

/// The lowered blocks of definitions with the bytes that they are stored as.
pub open spec fn stored(owned: Seq<OwnedView>, bytes: Seq<Seq<Seq<u8>>>) -> Seq<OwnedStoredView> {
    Seq::new(
        owned.len(),
        |j: int|
            OwnedStoredView {
                owner: owned[j].owner,
                blocks: Seq::new(
                    owned[j].blocks.len(),
                    |i: int| stored_block(owned[j].blocks[i], bytes[j][i]),
                ),
            },
    )
}

/// Whether there are bytes for every block.
pub open spec fn bytes_match(owned: Seq<OwnedView>, bytes: Seq<Seq<Seq<u8>>>) -> bool {
    bytes.len() == owned.len() && forall|j: int|
        0 <= j < owned.len() ==> (#[trigger] bytes[j]).len() == owned[j].blocks.len()
}

/// Bytes of the blocks of definitions.
pub open spec fn all_bytes(v: Seq<Vec<Vec<u8>>>) -> Seq<Seq<Seq<u8>>> {
    Seq::new(v.len(), |j: int| Seq::new(v[j]@.len(), |i: int| v[j]@[i]@))
}

fn store_one(blocks: &Vec<LoweredBlock>, bytes: &Vec<Vec<u8>>) -> (r: Vec<StoredBlock>)
    requires
        bytes@.len() == blocks@.len(),
    ensures
        base::views(r@) == Seq::new(
            blocks@.len(),
            |i: int| stored_block(base::views(blocks@)[i], bytes@[i]@),
        ),
{
    let ghost all = base::views(blocks@);
    let mut out: Vec<StoredBlock> = Vec::new();
    let mut i: usize = 0;
    while i < blocks.len()
        invariant
            i <= blocks@.len(),
            bytes@.len() == blocks@.len(),
            all == base::views(blocks@),
            base::views(out@) == Seq::new(i as nat, |k: int| stored_block(all[k], bytes@[k]@)),
        decreases blocks@.len() - i,
    {
        let b = &blocks[i];
        assert(all[i as int] == b@);
        out.push(
            StoredBlock {
                crc: b.crc,
                tag: b.tag.clone(),
                def_name_off: b.def_name_off,
                bytes: copy_bytes(&bytes[i]),
                body: b.body.clone(),
            },
        );
        i = i + 1;
        assert(base::views(out@) =~= Seq::new(i as nat, |k: int| stored_block(all[k], bytes@[k]@)));
    }
    out
}

/// Puts lowered blocks together with the bytes that they are stored as.
pub fn store_blocks(owned: &Vec<OwnedBlocks>, bytes: &Vec<Vec<Vec<u8>>>) -> (r: Vec<OwnedStored>)
    requires
        bytes_match(base::views(owned@), all_bytes(bytes@)),
    ensures
        base::views(r@) == stored(base::views(owned@), all_bytes(bytes@)),
{
    let ghost all = base::views(owned@);
    let ghost texts = all_bytes(bytes@);
    let mut out: Vec<OwnedStored> = Vec::new();
    let mut j: usize = 0;
    while j < owned.len()
        invariant
            j <= owned@.len(),
            all == base::views(owned@),
            texts == all_bytes(bytes@),
            bytes_match(all, texts),
            base::views(out@) == stored(all, texts).take(j as int),
        decreases owned@.len() - j,
    {
        proof {
            assert(all[j as int] == owned@[j as int]@);
            assert(texts[j as int].len() == all[j as int].blocks.len());
            assert(all[j as int].blocks.len() == owned@[j as int].blocks@.len());
        }
        let one = OwnedStored { owner: owned[j].owner, blocks: store_one(&owned[j].blocks, &bytes[j]) };
        assert(one@.blocks =~= stored(all, texts)[j as int].blocks);
        out.push(one);
        j = j + 1;
        assert(base::views(out@) =~= stored(all, texts).take(j as int));
    }
    assert(base::views(out@) =~= stored(all, texts));
    out
}

// ── Laws ─────────────────────────────────────────────────────────────────────

/// Every record of the table of an owner points at the entry behind the named ones that
/// is the definition with the class and the bytes of its block; no two of those are
/// equal; and of the entries that were there nothing but the tables changes.
pub proof fn tables_point_at_their_blocks(
    tables: Seq<Seq<char>>,
    st: Emitted,
    owned: Seq<OwnedStoredView>,
    j: int,
)
    requires
        0 <= j < owned.len(),
        forall|a: int, b: int|
            0 <= a < b < owned.len() ==> (#[trigger] owned[a]).owner != (
            #[trigger] owned[b]).owner,
        fresh(st.entries),
        emit::counts_upto(st.counters, st.entries.len() as int),
        owners_within(owned, st.entries.len() as int),
        st.entries.len() + total(owned, owned.len() as int) < u32::MAX,
    ensures
        ({
            let end = attached(tables, st, owned).entries;
            let subs = subs_of(st, owned);
            let base = st.entries.len();
            &&& end.len() == base + subs.len()
            &&& blocks::all_differ(subs)
            &&& points(subs, end[owned[j].owner as int].sub_defs, owned[j], base as int)
            &&& forall|i: int|
                0 <= i < subs.len() ==> #[trigger] end[base + i] == sub_entry(tables, subs[i])
            &&& forall|i: int| 0 <= i < base ==> {
                &&& (#[trigger] end[i]).def_name_off == st.entries[i].def_name_off
                &&& end[i].file_name_off == st.entries[i].file_name_off
                &&& end[i].counter == st.entries[i].counter
                &&& end[i].preamble == st.entries[i].preamble
                &&& end[i].body == st.entries[i].body
            }
        }),
{
    let none = Shared { subs: Seq::empty(), counters: st.counters };
    lemma_tables(none, st.entries, owned, owned.len() as int);
    let (s, with) = tables_upto(none, st.entries, owned, owned.len() as int);
    let end = attached(tables, st, owned).entries;
    let base = st.entries.len() as u32;
    let own = owned[j].owner as int;
    assert(points(s.subs, with[own].sub_defs, owned[j], 0));
    let t = with[own].sub_defs->0;
    let u = blocks::moved(t, base);
    assert(end[own] == moved_entry(with[own], base));
    assert forall|i: int| 0 <= i < u.len() implies {
        &&& (#[trigger] u[i]).name_crc == owned[j].blocks[i].crc
        &&& u[i].owner_index == owned[j].owner
        &&& base <= u[i].def_index < base + s.subs.len()
        &&& s.subs[u[i].def_index - base].tag == owned[j].blocks[i].tag
        &&& s.subs[u[i].def_index - base].bytes == owned[j].blocks[i].bytes
    } by {
        assert(t[i].def_index < s.subs.len());
        assert(u[i].def_index == t[i].def_index + base);
    }
    assert forall|i: int| 0 <= i < st.entries.len() implies {
        &&& (#[trigger] end[i]).def_name_off == st.entries[i].def_name_off
        &&& end[i].file_name_off == st.entries[i].file_name_off
        &&& end[i].counter == st.entries[i].counter
        &&& end[i].preamble == st.entries[i].preamble
        &&& end[i].body == st.entries[i].body
    } by {
        assert(end[i] == moved_entry(with[i], base));
    }
}

/// A binary that compiles can take its blocks, whatever bytes they are stored as: every
/// owner is one of its entries, and no two are the same.
pub proof fn a_binary_can_take_its_blocks(
    link: LinkView,
    strings: Seq<Seq<char>>,
    classes: Seq<Seq<char>>,
    d: NamedView,
    tables: Seq<Seq<char>>,
    sources: SourcesView,
    said: Seq<DiagnosticView>,
    bytes: Seq<Seq<Seq<u8>>>,
)
    requires
        classes.len() + d.order.len() <= u32::MAX,
    ensures
        match bin::bin_outcome(link, strings, classes, d, tables, sources, said).result {
            Ok((emitted, owned)) => {
                let blocks = stored(owned, bytes);
                &&& owners_within(blocks, emitted.entries.len() as int)
                &&& forall|a: int, b: int|
                    0 <= a < b < blocks.len() ==> (#[trigger] blocks[a]).owner != (
                    #[trigger] blocks[b]).owner
            },
            Err(_) => true,
        },
{
    bin::a_binary_has_every_definition(link, strings, classes, d, tables, sources, said);
    let n = classes.len() as int;
    let none = Emitted { entries: Seq::empty(), counters: Map::empty() };
    if let (Ok(nulls), s) = emit::nulls_upto(link, strings, classes, n) {
        if let (Ok(st), s) = emit::null_entries(s, tables, nulls, classes, none, n) {
            let o = emit::named_upto(
                link,
                tables,
                nulls,
                d.defs,
                d.names,
                sources,
                NamedOutcome { emitted: st, strings: s, said, failed: 0 },
                d.order,
                d.order.len() as int,
            );
            let k = d.order.len() as int;
            let start = OwnedOutcome {
                owned: Seq::empty(),
                strings: o.strings,
                said: o.said,
                failed: 0,
            };
            bin::owners_ascend(link, nulls, d, tables, n as u32, start, k);
            let owned = bin::owned_upto(link, nulls, d, tables, n as u32, start, k).owned;
            let blocks = stored(owned, bytes);
            assert forall|a: int, b: int| 0 <= a < b < blocks.len() implies (
            #[trigger] blocks[a]).owner != (#[trigger] blocks[b]).owner by {
                assert(owned[a].owner < owned[b].owner);
            }
            assert forall|i: int| 0 <= i < blocks.len() implies (#[trigger] blocks[i]).owner
                < classes.len() + d.order.len() by {
                assert(owned[i].owner < classes.len() + d.order.len());
            }
        }
    }
}

} // verus!
