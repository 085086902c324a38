//! The tagged blocks of definitions: each tag is a definition of its own, shared where
//! two are equal.

use vstd::prelude::*;

use crate::build::diagnostics::{DiagnosticView, Diagnostics};
use crate::build::emit;
use crate::build::emit::{next_class_index, NullDef, NullView};
use crate::build::linking;
use crate::build::linking::{lower_interning, LinkView, TaskView};
use crate::build::reports;
use crate::build::reports::block_error_diagnostic;
use crate::crc32;
use crate::crc32::crc_text;
use crate::lower::def::{BodyView, DefBody, DefTypes};
use crate::lower::env::{LowerEnv, LowerError, LowerErrorView};
use crate::name_map::NameMap;
use crate::names;
use crate::names::NamesBuilder;
use crate::strings::same;
use crate::text::ast;
use crate::text::ast::{clone_statement, clone_statements, Statement, StatementView};
use crate::text::base;
use crate::text::base::Spanned;
use crate::text::symbols::SymbolTable;
use crate::value::copy_bytes;

verus! {

broadcast use base::group_views;

// ── Merging ──────────────────────────────────────────────────────────────────

/// The blocks of a definition with one tag, as one.
#[derive(Debug)]
pub struct Block {
    /// The checksum of the tag.
    pub crc: u32,
    pub tag: String,
    pub body: Vec<Spanned<Statement>>,
}

/// What a [`Block`] holds.
pub struct BlockView {
    pub crc: u32,
    pub tag: Seq<char>,
    pub body: Seq<Spanned<StatementView>>,
}

impl View for Block {
    type V = BlockView;

    open spec fn view(&self) -> BlockView {
        BlockView { crc: self.crc, tag: self.tag@, body: base::views(self.body@) }
    }
}

/// The first place at or behind `k` with a checksum that is no less; the length if
/// there is none.
pub open spec fn block_place(v: Seq<BlockView>, crc: u32, k: int) -> int
    decreases v.len() - k,
{
    if k < 0 || k >= v.len() || v[k].crc >= crc {
        k
    } else {
        block_place(v, crc, k + 1)
    }
}

/// The blocks, in ascending order of checksum, with one more: the statements of a tag
/// that is there already are added to it.
pub open spec fn with_block(
    v: Seq<BlockView>,
    tag: Seq<char>,
    body: Seq<Spanned<StatementView>>,
) -> Seq<BlockView> {
    let crc = crc32::text_checksum(tag);
    let i = block_place(v, crc, 0);
    if i < v.len() && v[i].crc == crc {
        v.update(i, BlockView { body: v[i].body + body, ..v[i] })
    } else {
        v.insert(i, BlockView { crc, tag, body })
    }
}

/// The blocks among the first `k` statements, each tag once, in ascending order of
/// checksum.
pub open spec fn blocks_upto(body: Seq<Spanned<StatementView>>, k: int) -> Seq<BlockView>
    decreases k,
{
    if k <= 0 || k > body.len() {
        Seq::empty()
    } else {
        let before = blocks_upto(body, k - 1);
        match body[k - 1].value {
            StatementView::TaggedBlock { tag, body } => with_block(before, tag, body),
            _ => before,
        }
    }
}

proof fn lemma_block_place(v: Seq<BlockView>, crc: u32, k: int)
    requires
        0 <= k <= v.len(),
    ensures
        k <= block_place(v, crc, k) <= v.len(),
        forall|i: int| k <= i < block_place(v, crc, k) ==> (#[trigger] v[i]).crc < crc,
        block_place(v, crc, k) < v.len() ==> v[block_place(v, crc, k)].crc >= crc,
    decreases v.len() - k,
{
    if k < v.len() && v[k].crc < crc {
        lemma_block_place(v, crc, k + 1);
    }
}

/// Every tag has one block, and the blocks stand in ascending order of checksum.
pub proof fn blocks_ascend(body: Seq<Spanned<StatementView>>, k: int)
    requires
        0 <= k <= body.len(),
    ensures
        forall|i: int, j: int|
            0 <= i < j < blocks_upto(body, k).len() ==> (#[trigger] blocks_upto(body, k)[i]).crc < (
            #[trigger] blocks_upto(body, k)[j]).crc,
    decreases k,
{
    if k > 0 {
        blocks_ascend(body, k - 1);
        let before = blocks_upto(body, k - 1);
        match body[k - 1].value {
            StatementView::TaggedBlock { tag, body: more } => {
                let crc = crc32::text_checksum(tag);
                lemma_block_place(before, crc, 0);
                let at = block_place(before, crc, 0);
                let after = with_block(before, tag, more);
                assert forall|i: int, j: int| 0 <= i < j < after.len() implies (
                #[trigger] after[i]).crc < (#[trigger] after[j]).crc by {
                    if at < before.len() && before[at].crc == crc {
                        assert(after[i].crc == before[i].crc && after[j].crc == before[j].crc);
                    } else {
                        if i < at {
                            assert(after[i] == before[i]);
                        } else if i > at {
                            assert(after[i] == before[i - 1]);
                        }
                        if j < at {
                            assert(after[j] == before[j]);
                        } else if j > at {
                            assert(after[j] == before[j - 1]);
                            assert(before[at].crc <= before[j - 1].crc);
                        }
                    }
                }
            },
            _ => {},
        }
    }
}

fn append(out: &mut Vec<Spanned<Statement>>, body: &Vec<Spanned<Statement>>)
    ensures
        base::views(final(out)@) == base::views(old(out)@) + base::views(body@),
{
    let ghost before = base::views(out@);
    let ghost more = base::views(body@);
    let mut i: usize = 0;
    assert(before + more.take(0) =~= before);
    while i < body.len()
        invariant
            i <= body@.len(),
            more == base::views(body@),
            base::views(out@) == before + more.take(i as int),
        decreases body@.len() - i,
    {
        out.push(clone_statement(&body[i]));
        proof {
            assert(more[i as int] == body@[i as int]@);
            assert(base::views(out@) =~= before + more.take(i as int + 1));
        }
        i = i + 1;
    }
    assert(more.take(body@.len() as int) =~= more);
}

fn add_block(v: &mut Vec<Block>, tag: &str, body: &Vec<Spanned<Statement>>)
    ensures
        base::views(final(v)@) == with_block(base::views(old(v)@), tag@, base::views(body@)),
{
    let crc = crc_text(tag);
    let ghost before = base::views(v@);
    let mut i: usize = 0;
    while i < v.len() && v[i].crc < crc
        invariant
            i <= v@.len(),
            v@ == old(v)@,
            before == base::views(v@),
            block_place(before, crc, 0) == block_place(before, crc, i as int),
        decreases v@.len() - i,
    {
        assert(before[i as int] == v@[i as int]@);
        i = i + 1;
    }
    proof {
        if i < v@.len() {
            assert(before[i as int] == v@[i as int]@);
        }
    }
    if i < v.len() && v[i].crc == crc {
        append(&mut v[i].body, body);
        assert(base::views(v@) =~= with_block(before, tag@, base::views(body@)));
    } else {
        let new = Block { crc, tag: tag.to_owned(), body: clone_statements(body) };
        v.insert(i, new);
        assert(base::views(v@) =~= with_block(before, tag@, base::views(body@)));
    }
}

/// The tagged blocks of some statements: those with one tag become one, in ascending
/// order of the checksums of the tags.
pub fn merge_blocks(body: &Vec<Spanned<Statement>>) -> (r: Vec<Block>)
    ensures
        base::views(r@) == blocks_upto(base::views(body@), body@.len() as int),
{
    let ghost all = base::views(body@);
    let mut out: Vec<Block> = Vec::new();
    let mut k: usize = 0;
    while k < body.len()
        invariant
            k <= body@.len(),
            all == base::views(body@),
            base::views(out@) == blocks_upto(all, k as int),
        decreases body@.len() - k,
    {
        proof {
            assert(all[k as int] == body@[k as int]@);
            ast::lemma_statement_view(body@[k as int].value);
        }
        match &body[k].value {
            Statement::TaggedBlock(t) => add_block(&mut out, t.tag.as_str(), &t.body),
            _ => {},
        }
        k = k + 1;
    }
    out
}

// ── Lowering ─────────────────────────────────────────────────────────────────

/// A lowered block, and the offset of its tag.
#[derive(Debug)]
pub struct LoweredBlock {
    pub crc: u32,
    pub tag: String,
    pub def_name_off: u32,
    pub body: DefBody,
}

/// What a [`LoweredBlock`] holds.
pub struct LoweredView {
    pub crc: u32,
    pub tag: Seq<char>,
    pub def_name_off: u32,
    pub body: BodyView,
}

impl View for LoweredBlock {
    type V = LoweredView;

    open spec fn view(&self) -> LoweredView {
        LoweredView {
            crc: self.crc,
            tag: self.tag@,
            def_name_off: self.def_name_off,
            body: self.body@,
        }
    }
}

/// The blocks that lower, the strings of the table, what is said of those that do not
/// lower, and how many do not.
pub struct BlocksOutcome {
    pub lowered: Seq<LoweredView>,
    pub strings: Seq<Seq<char>>,
    pub said: Seq<DiagnosticView>,
    pub failed: nat,
}

/// What a block is lowered to, with the offset of its tag, and the strings of the table
/// then: the tag is added behind the strings that the block asks for.
pub open spec fn block_body(
    link: LinkView,
    strings: Seq<Seq<char>>,
    nulls: Seq<NullView>,
    b: BlockView,
) -> (Result<(BodyView, u32), LowerErrorView>, Seq<Seq<char>>) {
    match linking::lowering(
        link,
        strings,
        TaskView { class: b.tag, base: emit::null_of(nulls, b.tag, 0), body: b.body },
    ) {
        (Err(x), s) => (Err(x), s),
        (Ok(body), s) => {
            let s = names::held(s, b.tag);
            match names::found_offset(s, b.tag) {
                None => (Err(LowerErrorView::UnresolvedReference(b.tag, None)), s),
                Some(o) => (Ok((body, o)), s),
            }
        },
    }
}

/// What the first `k` blocks of the definition `name` give, each lowered onto the null
/// definition of its tag.
pub open spec fn lowered_blocks(
    link: LinkView,
    strings: Seq<Seq<char>>,
    nulls: Seq<NullView>,
    name: Seq<char>,
    blocks: Seq<BlockView>,
    said: Seq<DiagnosticView>,
    k: int,
) -> BlocksOutcome
    decreases k,
{
    if k <= 0 || k > blocks.len() {
        BlocksOutcome { lowered: Seq::empty(), strings, said, failed: 0 }
    } else {
        let o = lowered_blocks(link, strings, nulls, name, blocks, said, k - 1);
        let b = blocks[k - 1];
        match block_body(link, o.strings, nulls, b) {
            (Ok((body, def_name_off)), s) => BlocksOutcome {
                lowered: o.lowered.push(
                    LoweredView { crc: b.crc, tag: b.tag, def_name_off, body },
                ),
                strings: s,
                ..o
            },
            (Err(x), s) => BlocksOutcome {
                strings: s,
                said: o.said.push(reports::block_error(b.tag, name, x)),
                failed: o.failed + 1,
                ..o
            },
        }
    }
}

fn lower_block<E: LowerEnv>(
    types: &DefTypes,
    nulls: &Vec<NullDef>,
    b: &Block,
    symbols: &SymbolTable,
    env: &E,
    table: &mut NamesBuilder,
) -> (r: Result<(DefBody, u32), LowerError>)
    requires
        old(table).wf(),
    ensures
        final(table).wf(),
        ((match r {
            Ok((body, o)) => Ok((body@, o)),
            Err(e) => Err(e@),
        }), final(table)@) == block_body(
            linking::link_of(types, symbols@, env),
            old(table)@,
            base::views(nulls@),
            b@,
        ),
{
    let tag = b.tag.as_str();
    match lower_interning(
        types,
        tag,
        emit::find_null(nulls, tag),
        &b.body,
        symbols,
        env,
        table,
    ) {
        Err(e) => Err(e),
        Ok(body) => match table.hold(tag) {
            None => Err(LowerError::UnresolvedReference(b.tag.clone(), None)),
            Some(o) => Ok((body, o)),
        },
    }
}

/// Lowers the blocks of the definition `name`, each onto the null definition of its
/// tag. What fails is said, and counted in the result. The strings that the blocks ask for
/// and their tags are added to the table.
pub fn lower_blocks<E: LowerEnv>(
    types: &DefTypes,
    nulls: &Vec<NullDef>,
    name: &str,
    blocks: &Vec<Block>,
    symbols: &SymbolTable,
    env: &E,
    table: &mut NamesBuilder,
    diagnostics: &mut Diagnostics,
) -> (r: (Vec<LoweredBlock>, usize))
    requires
        old(table).wf(),
    ensures
        final(table).wf(),
        (BlocksOutcome {
            lowered: base::views(r.0@),
            strings: final(table)@,
            said: final(diagnostics)@,
            failed: r.1 as nat,
        }) == lowered_blocks(
            linking::link_of(types, symbols@, env),
            old(table)@,
            base::views(nulls@),
            name@,
            base::views(blocks@),
            old(diagnostics)@,
            blocks@.len() as int,
        ),
{
    let ghost link = linking::link_of(types, symbols@, env);
    let ghost bodies = base::views(nulls@);
    let ghost all = base::views(blocks@);
    let ghost said = diagnostics@;
    let ghost strings = table@;
    let mut out: Vec<LoweredBlock> = Vec::new();
    let mut failed: usize = 0;
    let mut k: usize = 0;
    while k < blocks.len()
        invariant
            k <= blocks@.len(),
            failed <= k,
            table.wf(),
            link == linking::link_of(types, symbols@, env),
            bodies == base::views(nulls@),
            all == base::views(blocks@),
            (BlocksOutcome {
                lowered: base::views(out@),
                strings: table@,
                said: diagnostics@,
                failed: failed as nat,
            }) == lowered_blocks(link, strings, bodies, name@, all, said, k as int),
        decreases blocks@.len() - k,
    {
        let b = &blocks[k];
        proof {
            assert(all[k as int] == b@);
        }
        match lower_block(types, nulls, b, symbols, env, table) {
            Ok((body, def_name_off)) => out.push(
                LoweredBlock { crc: b.crc, tag: b.tag.clone(), def_name_off, body },
            ),
            Err(e) => {
                diagnostics.push(block_error_diagnostic(b.tag.as_str(), name, &e));
                failed = failed + 1;
            },
        }
        k = k + 1;
    }
    (out, failed)
}

// ── Sharing ──────────────────────────────────────────────────────────────────

/// A definition without a name: its class, its bytes, its index in the class, and the
/// offset of the name of the class.
#[derive(Debug)]
pub struct SubDef {
    pub tag: String,
    pub bytes: Vec<u8>,
    pub counter: u32,
    pub def_name_off: u32,
    pub body: DefBody,
}

/// What a [`SubDef`] holds.
pub struct SubView {
    pub tag: Seq<char>,
    pub bytes: Seq<u8>,
    pub counter: u32,
    pub def_name_off: u32,
    pub body: BodyView,
}

impl View for SubDef {
    type V = SubView;

    open spec fn view(&self) -> SubView {
        SubView {
            tag: self.tag@,
            bytes: self.bytes@,
            counter: self.counter,
            def_name_off: self.def_name_off,
            body: self.body@,
        }
    }
}

/// A lowered block and the bytes that it is stored as.
#[derive(Debug)]
pub struct StoredBlock {
    pub crc: u32,
    pub tag: String,
    pub def_name_off: u32,
    pub bytes: Vec<u8>,
    pub body: DefBody,
}

/// What a [`StoredBlock`] holds.
pub struct StoredView {
    pub crc: u32,
    pub tag: Seq<char>,
    pub def_name_off: u32,
    pub bytes: Seq<u8>,
    pub body: BodyView,
}

impl View for StoredBlock {
    type V = StoredView;

    open spec fn view(&self) -> StoredView {
        StoredView {
            crc: self.crc,
            tag: self.tag@,
            def_name_off: self.def_name_off,
            bytes: self.bytes@,
            body: self.body@,
        }
    }
}

/// The first place at or behind `k` of a definition with the class and the bytes; the
/// length if there is none.
pub open spec fn sub_place(v: Seq<SubView>, tag: Seq<char>, bytes: Seq<u8>, k: int) -> int
    decreases v.len() - k,
{
    if k < 0 || k >= v.len() || (v[k].tag == tag && v[k].bytes == bytes) {
        k
    } else {
        sub_place(v, tag, bytes, k + 1)
    }
}

/// The definitions without names, and the counters of the classes.
pub struct Shared {
    pub subs: Seq<SubView>,
    pub counters: Map<Seq<char>, u32>,
}

/// The definitions with one more, which is added if it is not there.
pub open spec fn with_sub(s: Shared, b: StoredView) -> Shared {
    if sub_place(s.subs, b.tag, b.bytes, 0) < s.subs.len() {
        s
    } else {
        Shared {
            subs: s.subs.push(
                SubView {
                    tag: b.tag,
                    bytes: b.bytes,
                    counter: emit::class_count(s.counters, b.tag),
                    def_name_off: b.def_name_off,
                    body: b.body,
                },
            ),
            counters: emit::counted(s.counters, b.tag),
        }
    }
}

/// An entry of the table of the blocks of a definition: the checksum of the tag, the
/// definition that the block is, and the definition that it belongs to.
#[derive(Debug, Clone, Copy, PartialEq, Eq, Structural)]
pub struct SubDefRecord {
    pub name_crc: u32,
    pub def_index: u32,
    pub owner_index: u32,
}

/// The definitions behind the first `k` blocks of a definition, and its table.
pub open spec fn tabled(
    s: Shared,
    owner: u32,
    blocks: Seq<StoredView>,
    k: int,
) -> (Shared, Seq<SubDefRecord>)
    decreases k,
{
    if k <= 0 || k > blocks.len() {
        (s, Seq::empty())
    } else {
        let (before, table) = tabled(s, owner, blocks, k - 1);
        let b = blocks[k - 1];
        (
            with_sub(before, b),
            table.push(
                SubDefRecord {
                    name_crc: b.crc,
                    def_index: sub_place(before.subs, b.tag, b.bytes, 0) as u32,
                    owner_index: owner,
                },
            ),
        )
    }
}

/// The definitions without names of a binary, each once.
#[derive(Debug)]
pub struct SubDefs {
    pub entries: Vec<SubDef>,
}

impl View for SubDefs {
    type V = Seq<SubView>;

    open spec fn view(&self) -> Seq<SubView> {
        base::views(self.entries@)
    }
}

fn same_bytes(a: &Vec<u8>, b: &Vec<u8>) -> (r: bool)
    ensures
        r == (a@ == b@),
{
    if a.len() != b.len() {
        return false;
    }
    let mut i: usize = 0;
    while i < a.len()
        invariant
            i <= a@.len(),
            a@.len() == b@.len(),
            forall|j: int| 0 <= j < i ==> a@[j] == b@[j],
        decreases a@.len() - i,
    {
        if a[i] != b[i] {
            return false;
        }
        i = i + 1;
    }
    assert(a@ =~= b@);
    true
}

impl SubDefs {
    /// No definitions.
    pub fn new() -> (r: SubDefs)
        ensures
            r@ == Seq::<SubView>::empty(),
    {
        SubDefs { entries: Vec::new() }
    }

    /// Adds a definition, if it is not there. Gives back its place.
    pub fn add(&mut self, b: &StoredBlock, counters: &mut NameMap<u32>) -> (r: usize)
        requires
            emit::class_count(old(counters)@, b.tag@) < u32::MAX,
        ensures
            (Shared { subs: final(self)@, counters: final(counters)@ }) == with_sub(
                Shared { subs: old(self)@, counters: old(counters)@ },
                b@,
            ),
            r == sub_place(old(self)@, b.tag@, b.bytes@, 0),
            r < final(self)@.len() <= old(self)@.len() + 1,
    {
        let tag = b.tag.as_str();
        let bytes = &b.bytes;
        let ghost all = self@;
        let mut i: usize = 0;
        while i < self.entries.len()
            invariant
                i <= self.entries@.len(),
                tag@ == b.tag@,
                bytes@ == b.bytes@,
                *self == *old(self),
                *counters == *old(counters),
                all == base::views(self.entries@),
                sub_place(all, tag@, bytes@, 0) == sub_place(all, tag@, bytes@, i as int),
            decreases self.entries@.len() - i,
        {
            assert(all[i as int] == self.entries@[i as int]@);
            if same(self.entries[i].tag.as_str(), tag) && same_bytes(
                &self.entries[i].bytes,
                bytes,
            ) {
                return i;
            }
            i = i + 1;
        }
        let counter = next_class_index(counters, tag);
        self.entries.push(
            SubDef {
                tag: tag.to_owned(),
                bytes: copy_bytes(bytes),
                counter,
                def_name_off: b.def_name_off,
                body: b.body.clone(),
            },
        );
        i
    }

    /// Adds the blocks of a definition. Gives back its table.
    pub fn table(
        &mut self,
        owner: u32,
        blocks: &Vec<StoredBlock>,
        counters: &mut NameMap<u32>,
    ) -> (r: Vec<SubDefRecord>)
        requires
            exists|n: int|
                0 <= n && #[trigger] emit::counts_upto(old(counters)@, n) && n + blocks@.len()
                    < u32::MAX,
            old(self)@.len() + blocks@.len() < u32::MAX,
        ensures
            (Shared { subs: final(self)@, counters: final(counters)@ }, r@) == tabled(
                Shared { subs: old(self)@, counters: old(counters)@ },
                owner,
                base::views(blocks@),
                blocks@.len() as int,
            ),
    {
        let ghost start = Shared { subs: self@, counters: counters@ };
        let ghost all = base::views(blocks@);
        let ghost n = choose|n: int|
            0 <= n && #[trigger] emit::counts_upto(counters@, n) && n + blocks@.len() < u32::MAX;
        let mut out: Vec<SubDefRecord> = Vec::new();
        let mut k: usize = 0;
        while k < blocks.len()
            invariant
                k <= blocks@.len(),
                all == base::views(blocks@),
                start.subs.len() + blocks@.len() < u32::MAX,
                self@.len() <= start.subs.len() + k,
                0 <= n,
                n + blocks@.len() < u32::MAX,
                emit::counts_upto(counters@, n + k),
                (Shared { subs: self@, counters: counters@ }, out@) == tabled(
                    start,
                    owner,
                    all,
                    k as int,
                ),
            decreases blocks@.len() - k,
        {
            let b = &blocks[k];
            assert(all[k as int] == b@);
            let ghost before = counters@;
            let place = self.add(b, counters);
            out.push(
                SubDefRecord { name_crc: b.crc, def_index: place as u32, owner_index: owner },
            );
            assert(emit::counts_upto(counters@, n + k + 1)) by {
                assert(emit::counts_upto(before, n + k));
            }
            k = k + 1;
        }
        out
    }
}

/// A table whose definitions stand behind `base` others.
pub open spec fn moved(table: Seq<SubDefRecord>, base: u32) -> Seq<SubDefRecord> {
    Seq::new(
        table.len(),
        |i: int| SubDefRecord { def_index: (table[i].def_index + base) as u32, ..table[i] },
    )
}

/// Moves the definitions of a table behind `base` others.
pub fn move_behind(table: &mut Vec<SubDefRecord>, base: u32)
    requires
        forall|i: int|
            0 <= i < old(table)@.len() ==> (#[trigger] old(table)@[i]).def_index + base
                <= u32::MAX,
    ensures
        final(table)@ == moved(old(table)@, base),
{
    let ghost before = table@;
    let mut i: usize = 0;
    while i < table.len()
        invariant
            i <= table@.len(),
            before == old(table)@,
            table@.len() == before.len(),
            forall|j: int|
                0 <= j < before.len() ==> (#[trigger] before[j]).def_index + base <= u32::MAX,
            forall|j: int| 0 <= j < i ==> #[trigger] table@[j] == moved(before, base)[j],
            forall|j: int| i <= j < table@.len() ==> #[trigger] table@[j] == before[j],
        decreases table@.len() - i,
    {
        let r = table[i];
        assert(r == before[i as int]);
        table.set(
            i,
            SubDefRecord {
                name_crc: r.name_crc,
                def_index: r.def_index + base,
                owner_index: r.owner_index,
            },
        );
        i = i + 1;
    }
    assert(table@ =~= moved(before, base));
}

// ── Laws ─────────────────────────────────────────────────────────────────────

proof fn lemma_sub_place(v: Seq<SubView>, tag: Seq<char>, bytes: Seq<u8>, k: int)
    requires
        0 <= k <= v.len(),
    ensures
        k <= sub_place(v, tag, bytes, k) <= v.len(),
        forall|i: int|
            k <= i < sub_place(v, tag, bytes, k) ==> (#[trigger] v[i]).tag != tag || v[i].bytes
                != bytes,
        sub_place(v, tag, bytes, k) < v.len() ==> v[sub_place(v, tag, bytes, k)].tag == tag
            && v[sub_place(v, tag, bytes, k)].bytes == bytes,
    decreases v.len() - k,
{
    if k < v.len() && !(v[k].tag == tag && v[k].bytes == bytes) {
        lemma_sub_place(v, tag, bytes, k + 1);
    }
}

/// Whether no two definitions have one class and the same bytes.
pub open spec fn all_differ(v: Seq<SubView>) -> bool {
    forall|i: int, j: int|
        0 <= i < j < v.len() ==> !((#[trigger] v[i]).tag == (#[trigger] v[j]).tag && v[i].bytes
            == v[j].bytes)
}

/// Equal definitions share a place: no two have one class and the same bytes, what is
/// there stays where it is, and what was added stands at the place that was given.
pub proof fn equal_definitions_share_a_place(s: Shared, b: StoredView)
    requires
        all_differ(s.subs),
    ensures
        all_differ(with_sub(s, b).subs),
        s.subs.is_prefix_of(with_sub(s, b).subs),
        ({
            let p = sub_place(s.subs, b.tag, b.bytes, 0);
            let after = with_sub(s, b).subs;
            &&& 0 <= p < after.len()
            &&& after[p].tag == b.tag
            &&& after[p].bytes == b.bytes
        }),
        with_sub(with_sub(s, b), b) == with_sub(s, b),
{
    let after = with_sub(s, b).subs;
    let p = sub_place(s.subs, b.tag, b.bytes, 0);
    lemma_sub_place(s.subs, b.tag, b.bytes, 0);
    lemma_sub_place(after, b.tag, b.bytes, 0);
    assert(after[p].tag == b.tag && after[p].bytes == b.bytes);
    assert forall|i: int, j: int| 0 <= i < j < after.len() implies !((#[trigger] after[i]).tag == (
    #[trigger] after[j]).tag && after[i].bytes == after[j].bytes) by {
        assert(after[i] == s.subs[i]);
        if j < s.subs.len() {
            assert(after[j] == s.subs[j]);
        }
    }
}

/// Every record of a table points at a definition with the class and the bytes of its
/// block, and bears the checksum of the tag and the owner.
pub proof fn a_table_points_at_its_blocks(
    s: Shared,
    owner: u32,
    blocks: Seq<StoredView>,
    k: int,
)
    requires
        all_differ(s.subs),
        0 <= k <= blocks.len(),
        s.subs.len() + blocks.len() < u32::MAX,
    ensures
        ({
            let (after, table) = tabled(s, owner, blocks, k);
            &&& all_differ(after.subs)
            &&& after.subs.len() <= s.subs.len() + k
            &&& s.subs.is_prefix_of(after.subs)
            &&& table.len() == k
            &&& forall|i: int|
                0 <= i < k ==> {
                    &&& (#[trigger] table[i]).name_crc == blocks[i].crc
                    &&& table[i].owner_index == owner
                    &&& table[i].def_index < after.subs.len()
                    &&& after.subs[table[i].def_index as int].tag == blocks[i].tag
                    &&& after.subs[table[i].def_index as int].bytes == blocks[i].bytes
                }
        }),
    decreases k,
{
    if 0 < k {
        a_table_points_at_its_blocks(s, owner, blocks, k - 1);
        let (before, _) = tabled(s, owner, blocks, k - 1);
        let b = blocks[k - 1];
        equal_definitions_share_a_place(before, b);
    }
}

} // verus!
