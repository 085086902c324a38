//! One binary: its null definitions, its named definitions, and their blocks.

use vstd::prelude::*;

use crate::build::asked;
use crate::build::attach;
use crate::build::blocks;
use crate::build::blocks::{lower_blocks, merge_blocks, LoweredBlock, LoweredView};
use crate::build::diagnostics::{DiagnosticView, Diagnostics, SourceFile};
use crate::build::emit;
use crate::build::emit::{
    build_nulldefs, failure_message, is_listed, BuiltView, Emitted, Entries, NamedOutcome, NullDef,
    NullView, SourcesView,
};
use crate::build::linking;
use crate::build::linking::LinkView;
use crate::build::reports::DefPlace;
use crate::lower::body;
use crate::lower::body::flatten_specialization;
use crate::lower::def::DefTypes;
use crate::lower::env::LowerEnv;
use crate::name_map::NameMap;
use crate::names;
use crate::names::NamesBuilder;
use crate::text::ast::{Definition, DefinitionView};
use crate::text::base;
use crate::text::symbols::SymbolTable;

verus! {

broadcast use base::group_views;

/// The lowered blocks of a definition, and the index of the definition.
#[derive(Debug)]
pub struct OwnedBlocks {
    pub owner: u32,
    pub blocks: Vec<LoweredBlock>,
}

/// What an [`OwnedBlocks`] holds.
pub struct OwnedView {
    pub owner: u32,
    pub blocks: Seq<LoweredView>,
}

impl View for OwnedBlocks {
    type V = OwnedView;

    open spec fn view(&self) -> OwnedView {
        OwnedView { owner: self.owner, blocks: base::views(self.blocks@) }
    }
}

/// What the definitions of a binary are.
pub struct NamedView {
    pub defs: Seq<DefinitionView>,
    pub names: Map<Seq<char>, usize>,
    pub order: Seq<Seq<char>>,
}

/// The blocks of a definition: none where its class has no table of them, or where what
/// it specializes is missing.
pub open spec fn blocks_of(
    d: NamedView,
    tables: Seq<Seq<char>>,
    name: Seq<char>,
) -> Seq<blocks::BlockView> {
    if d.names.contains_key(name) && tables.contains(d.defs[d.names[name] as int].def_type) {
        match body::flattened(d.defs, d.names, d.names[name]) {
            Ok(stmts) => blocks::blocks_upto(stmts, stmts.len() as int),
            Err(_) => Seq::empty(),
        }
    } else {
        Seq::empty()
    }
}

/// The blocks of definitions, the strings of the table, what is said of the blocks that do
/// not lower, and how many do not.
pub struct OwnedOutcome {
    pub owned: Seq<OwnedView>,
    pub strings: Seq<Seq<char>>,
    pub said: Seq<DiagnosticView>,
    pub failed: nat,
}

/// What the blocks of the first `k` names give. The definitions stand behind `first`
/// others.
pub open spec fn owned_upto(
    link: LinkView,
    nulls: Seq<NullView>,
    d: NamedView,
    tables: Seq<Seq<char>>,
    first: u32,
    start: OwnedOutcome,
    k: int,
) -> OwnedOutcome
    decreases k,
{
    if k <= 0 || k > d.order.len() {
        start
    } else {
        let o = owned_upto(link, nulls, d, tables, first, start, k - 1);
        let name = d.order[k - 1];
        let v = blocks_of(d, tables, name);
        if v.len() == 0 {
            o
        } else {
            let b = blocks::lowered_blocks(
                link,
                o.strings,
                nulls,
                name,
                v,
                o.said,
                v.len() as int,
            );
            OwnedOutcome {
                owned: o.owned.push(
                    OwnedView { owner: (first + (k - 1)) as u32, blocks: b.lowered },
                ),
                strings: b.strings,
                said: b.said,
                failed: o.failed + b.failed,
            }
        }
    }
}

proof fn lemma_blocks_said(
    link: LinkView,
    strings: Seq<Seq<char>>,
    nulls: Seq<NullView>,
    name: Seq<char>,
    v: Seq<blocks::BlockView>,
    said: Seq<DiagnosticView>,
    k: int,
)
    ensures
        blocks::lowered_blocks(link, strings, nulls, name, v, said, k).said.len() == said.len()
            + blocks::lowered_blocks(link, strings, nulls, name, v, said, k).failed,
    decreases k,
{
    if 0 < k <= v.len() {
        lemma_blocks_said(link, strings, nulls, name, v, said, k - 1);
    }
}

/// Every block that does not lower is said.
pub proof fn every_failed_block_is_said(
    link: LinkView,
    nulls: Seq<NullView>,
    d: NamedView,
    tables: Seq<Seq<char>>,
    first: u32,
    start: OwnedOutcome,
    k: int,
)
    ensures
        ({
            let end = owned_upto(link, nulls, d, tables, first, start, k);
            end.said.len() - start.said.len() == end.failed - start.failed
        }),
    decreases k,
{
    if 0 < k <= d.order.len() {
        every_failed_block_is_said(link, nulls, d, tables, first, start, k - 1);
        let o = owned_upto(link, nulls, d, tables, first, start, k - 1);
        let name = d.order[k - 1];
        let v = blocks_of(d, tables, name);
        lemma_blocks_said(link, o.strings, nulls, name, v, o.said, v.len() as int);
    }
}

/// What a binary comes to: its entries and the blocks of its definitions, or the message
/// why there are none; the strings of the table; and what is said.
pub struct BinOutcome {
    pub result: Result<(Emitted, Seq<OwnedView>), Seq<char>>,
    pub strings: Seq<Seq<char>>,
    pub said: Seq<DiagnosticView>,
}

/// What a binary comes to, with a table that holds `strings` before. The strings that the
/// null definitions ask for come first. Behind them come each class and the name of its null
/// definition; then, for each definition, its class, its name and the strings that it asks
/// for; and then, for each block, the strings that it asks for and its tag. Nothing else is
/// added.
pub open spec fn bin_outcome(
    link: LinkView,
    strings: Seq<Seq<char>>,
    classes: Seq<Seq<char>>,
    d: NamedView,
    tables: Seq<Seq<char>>,
    sources: SourcesView,
    said: Seq<DiagnosticView>,
) -> BinOutcome {
    let none = Emitted { entries: Seq::empty(), counters: Map::empty() };
    let n = classes.len() as int;
    match emit::nulls_upto(link, strings, classes, n) {
        (Err(m), s) => BinOutcome { result: Err(m), strings: s, said },
        (Ok(nulls), s) => match emit::null_entries(s, tables, nulls, classes, none, n) {
            (Err(m), s) => BinOutcome { result: Err(m), strings: s, said },
            (Ok(st), s) => {
                let o = emit::named_upto(
                    link,
                    tables,
                    nulls,
                    d.defs,
                    d.names,
                    sources,
                    NamedOutcome { emitted: st, strings: s, said, failed: 0 },
                    d.order,
                    d.order.len() as int,
                );
                if o.failed > 0 {
                    BinOutcome {
                        result: Err(emit::failure_text(o.failed, "definition"@)),
                        strings: o.strings,
                        said: o.said,
                    }
                } else {
                    let b = owned_upto(
                        link,
                        nulls,
                        d,
                        tables,
                        n as u32,
                        OwnedOutcome {
                            owned: Seq::empty(),
                            strings: o.strings,
                            said: o.said,
                            failed: 0,
                        },
                        d.order.len() as int,
                    );
                    if b.failed > 0 {
                        BinOutcome {
                            result: Err(emit::failure_text(b.failed, "sub-definition"@)),
                            strings: b.strings,
                            said: b.said,
                        }
                    } else {
                        BinOutcome {
                            result: Ok((o.emitted, b.owned)),
                            strings: b.strings,
                            said: b.said,
                        }
                    }
                }
            },
        },
    }
}

/// The blocks of the definition `name`, where it has any.
fn find_blocks(
    defs: &Vec<&Definition>,
    names: &NameMap<usize>,
    tables: &Vec<&str>,
    name: &str,
    order: Ghost<Seq<Seq<char>>>,
) -> (r: Vec<blocks::Block>)
    requires
        body::names_defs(names@, defs@.len() as int),
    ensures
        base::views(r@) == blocks_of(
            NamedView { defs: base::views(defs@), names: names@, order: order@ },
            base::views(tables@),
            name@,
        ),
{
    match names.get(name) {
        None => Vec::new(),
        Some(i) => {
            assert(names@[name@] == i);
            assert(base::views(defs@)[i as int] == defs@[i as int]@);
            if !is_listed(tables, defs[i].def_type.as_str()) {
                return Vec::new();
            }
            match flatten_specialization(i, defs, names) {
                Ok(stmts) => merge_blocks(&stmts),
                Err(_) => Vec::new(),
            }
        },
    }
}

/// Lowers the blocks of the named definitions. Those that do not lower are said, and
/// counted in the result.
fn lower_owned<E: LowerEnv>(
    types: &DefTypes,
    nulls: &Vec<NullDef>,
    defs: &Vec<&Definition>,
    names: &NameMap<usize>,
    order: &Vec<String>,
    tables: &Vec<&str>,
    first: u32,
    symbols: &SymbolTable,
    env: &E,
    table: &mut NamesBuilder,
    diagnostics: &mut Diagnostics,
) -> (r: (Vec<OwnedBlocks>, usize))
    requires
        old(table).wf(),
        body::names_defs(names@, defs@.len() as int),
        first + order@.len() < u32::MAX,
    ensures
        final(table).wf(),
        (OwnedOutcome {
            owned: base::views(r.0@),
            strings: final(table)@,
            said: final(diagnostics)@,
            failed: r.1 as nat,
        }) == owned_upto(
            linking::link_of(types, symbols@, env),
            base::views(nulls@),
            NamedView { defs: base::views(defs@), names: names@, order: base::views(order@) },
            base::views(tables@),
            first,
            OwnedOutcome {
                owned: Seq::empty(),
                strings: old(table)@,
                said: old(diagnostics)@,
                failed: 0,
            },
            order@.len() as int,
        ),
{
    let ghost link = linking::link_of(types, symbols@, env);
    let ghost bodies = base::views(nulls@);
    let ghost d = NamedView {
        defs: base::views(defs@),
        names: names@,
        order: base::views(order@),
    };
    let ghost with_tables = base::views(tables@);
    let ghost start = OwnedOutcome {
        owned: Seq::empty(),
        strings: table@,
        said: diagnostics@,
        failed: 0,
    };
    let before: usize = diagnostics.items.len();
    let mut out: Vec<OwnedBlocks> = Vec::new();
    let mut k: usize = 0;
    assert(base::views(out@) =~= Seq::<OwnedView>::empty());
    while k < order.len()
        invariant
            k <= order@.len(),
            table.wf(),
            body::names_defs(names@, defs@.len() as int),
            first + order@.len() < u32::MAX,
            link == linking::link_of(types, symbols@, env),
            bodies == base::views(nulls@),
            d == (NamedView {
                defs: base::views(defs@),
                names: names@,
                order: base::views(order@),
            }),
            with_tables == base::views(tables@),
            ({
                let o = owned_upto(link, bodies, d, with_tables, first, start, k as int);
                &&& base::views(out@) == o.owned
                &&& table@ == o.strings
                &&& diagnostics@ == o.said
            }),
        decreases order@.len() - k,
    {
        assert(d.order[k as int] == order@[k as int]@);
        let name = order[k].as_str();
        let blocks = find_blocks(defs, names, tables, name, Ghost(d.order));
        assert(base::views(blocks@).len() == blocks@.len());
        if blocks.len() > 0 {
            let (lowered, _) = lower_blocks(
                types,
                nulls,
                name,
                &blocks,
                symbols,
                env,
                table,
                diagnostics,
            );
            out.push(OwnedBlocks { owner: first + k as u32, blocks: lowered });
        }
        k = k + 1;
    }
    proof {
        every_failed_block_is_said(link, bodies, d, with_tables, first, start, k as int);
        assert(diagnostics@.len() == diagnostics.items@.len());
    }
    (out, diagnostics.items.len() - before)
}

proof fn lemma_nulls_fresh(
    strings: Seq<Seq<char>>,
    tables: Seq<Seq<char>>,
    nulls: Seq<NullView>,
    classes: Seq<Seq<char>>,
    st: Emitted,
    k: int,
)
    requires
        attach::fresh(st.entries),
    ensures
        match emit::null_entries(strings, tables, nulls, classes, st, k).0 {
            Ok(end) => attach::fresh(end.entries),
            Err(_) => true,
        },
    decreases k,
{
    if 0 < k <= classes.len() {
        lemma_nulls_fresh(strings, tables, nulls, classes, st, k - 1);
    }
}

proof fn lemma_named_fresh(
    link: LinkView,
    tables: Seq<Seq<char>>,
    nulls: Seq<NullView>,
    d: NamedView,
    sources: SourcesView,
    o: NamedOutcome,
    k: int,
)
    requires
        attach::fresh(o.emitted.entries),
    ensures
        attach::fresh(
            emit::named_upto(
                link,
                tables,
                nulls,
                d.defs,
                d.names,
                sources,
                o,
                d.order,
                k,
            ).emitted.entries,
        ),
    decreases k,
{
    if 0 < k <= d.order.len() {
        lemma_named_fresh(link, tables, nulls, d, sources, o, k - 1);
    }
}

/// The view of what a binary comes to.
pub open spec fn bin_view(r: Result<(Entries, Vec<OwnedBlocks>), String>) -> Result<
    (Emitted, Seq<OwnedView>),
    Seq<char>,
> {
    match r {
        Ok((entries, owned)) => Ok((entries@, base::views(owned@))),
        Err(m) => Err(m@),
    }
}

/// Lowers a binary: the null definitions of `classes`, the definitions of `order`, and the
/// blocks of those whose class is in `tables`. What fails is said; the message counts it.
/// The definitions that can be referred to, and what is derived, are those of `env`; the
/// strings are those of the table, to which they are added as they are asked for.
pub fn lower_bin<E: LowerEnv>(
    classes: &Vec<&str>,
    types: &DefTypes,
    defs: &Vec<&Definition>,
    names: &NameMap<usize>,
    order: &Vec<String>,
    tables: &Vec<&str>,
    places: &NameMap<DefPlace>,
    sources: &Vec<SourceFile>,
    symbols: &SymbolTable,
    env: &E,
    table: &mut NamesBuilder,
    diagnostics: &mut Diagnostics,
) -> (r: Result<(Entries, Vec<OwnedBlocks>), String>)
    requires
        old(table).wf(),
        body::names_defs(names@, defs@.len() as int),
        classes@.len() + order@.len() < u32::MAX,
    ensures
        final(table).wf(),
        (BinOutcome { result: bin_view(r), strings: final(table)@, said: final(diagnostics)@ })
            == bin_outcome(
            linking::link_of(types, symbols@, env),
            old(table)@,
            base::views(classes@),
            NamedView { defs: base::views(defs@), names: names@, order: base::views(order@) },
            base::views(tables@),
            SourcesView { places: places@, texts: emit::texts_of(sources@) },
            old(diagnostics)@,
        ),
        final(table)@ == names::held_all(
            old(table)@,
            asked::bin_asked(
                linking::link_of(types, symbols@, env),
                old(table)@,
                base::views(classes@),
                NamedView { defs: base::views(defs@), names: names@, order: base::views(order@) },
                base::views(tables@),
                SourcesView { places: places@, texts: emit::texts_of(sources@) },
                old(diagnostics)@,
            ),
        ),
        r matches Ok((entries, _)) ==> attach::fresh(entries@.entries) && emit::counts_upto(
            entries@.counters,
            entries@.entries.len() as int,
        ),
{
    proof {
        asked::a_binary_adds_what_it_asks_for(
            linking::link_of(types, symbols@, env),
            table@,
            base::views(classes@),
            NamedView { defs: base::views(defs@), names: names@, order: base::views(order@) },
            base::views(tables@),
            SourcesView { places: places@, texts: emit::texts_of(sources@) },
            diagnostics@,
        );
    }
    let nulls = match build_nulldefs(types, classes, symbols, env, table) {
        Ok(nulls) => nulls,
        Err(m) => return Err(m),
    };
    let ghost strings = table@;
    let mut entries = Entries::new();
    assert(entries@ == (Emitted {
        entries: Seq::<BuiltView>::empty(),
        counters: Map::<Seq<char>, u32>::empty(),
    }));
    assert(emit::counts_upto(entries@.counters, 0));
    match entries.emit_nulldefs(classes, &nulls, tables, table) {
        Ok(_) => {},
        Err(m) => return Err(m),
    }
    let ghost st = entries@;
    let ghost with_nulls = table@;
    let failed = entries.emit_named(
        order,
        types,
        tables,
        &nulls,
        defs,
        names,
        places,
        sources,
        symbols,
        env,
        table,
        diagnostics,
    );
    if failed > 0 {
        return Err(failure_message(failed, "definition"));
    }
    proof {
        let none = Emitted { entries: Seq::empty(), counters: Map::empty() };
        let all = base::views(classes@);
        let listed = base::views(tables@);
        let bodies = base::views(nulls@);
        lemma_nulls_fresh(strings, listed, bodies, all, none, all.len() as int);
        lemma_named_fresh(
            linking::link_of(types, symbols@, env),
            listed,
            bodies,
            NamedView { defs: base::views(defs@), names: names@, order: base::views(order@) },
            SourcesView { places: places@, texts: emit::texts_of(sources@) },
            NamedOutcome { emitted: st, strings: with_nulls, said: old(diagnostics)@, failed: 0 },
            order@.len() as int,
        );
    }
    let (owned, failed) = lower_owned(
        types,
        &nulls,
        defs,
        names,
        order,
        tables,
        classes.len() as u32,
        symbols,
        env,
        table,
        diagnostics,
    );
    if failed > 0 {
        return Err(failure_message(failed, "sub-definition"));
    }
    Ok((entries, owned))
}

// ── Laws ─────────────────────────────────────────────────────────────────────

proof fn lemma_named_said(
    link: LinkView,
    tables: Seq<Seq<char>>,
    nulls: Seq<NullView>,
    d: NamedView,
    sources: SourcesView,
    o: NamedOutcome,
    k: int,
)
    ensures
        ({
            let end = emit::named_upto(
                link,
                tables,
                nulls,
                d.defs,
                d.names,
                sources,
                o,
                d.order,
                k,
            );
            &&& end.said.len() - o.said.len() == end.failed - o.failed
            &&& 0 <= k <= d.order.len() ==> end.emitted.entries.len() + end.failed
                == o.emitted.entries.len() + o.failed + k
        }),
    decreases k,
{
    if 0 < k <= d.order.len() {
        lemma_named_said(link, tables, nulls, d, sources, o, k - 1);
    }
}

/// Every class has an entry, where none is missing.
pub proof fn lemma_null_entries(
    strings: Seq<Seq<char>>,
    tables: Seq<Seq<char>>,
    nulls: Seq<NullView>,
    classes: Seq<Seq<char>>,
    st: Emitted,
    k: int,
)
    requires
        0 <= k <= classes.len(),
    ensures
        match emit::null_entries(strings, tables, nulls, classes, st, k).0 {
            Ok(end) => end.entries.len() == st.entries.len() + k,
            Err(_) => true,
        },
    decreases k,
{
    if 0 < k {
        lemma_null_entries(strings, tables, nulls, classes, st, k - 1);
    }
}

/// The owners of blocks ascend, and each is the index of a named definition.
pub proof fn owners_ascend(
    link: LinkView,
    nulls: Seq<NullView>,
    d: NamedView,
    tables: Seq<Seq<char>>,
    first: u32,
    start: OwnedOutcome,
    k: int,
)
    requires
        0 <= k <= d.order.len(),
        first + d.order.len() <= u32::MAX,
        start.owned.len() == 0,
    ensures
        ({
            let owned = owned_upto(link, nulls, d, tables, first, start, k).owned;
            &&& forall|i: int|
                0 <= i < owned.len() ==> first <= (#[trigger] owned[i]).owner < first + k
            &&& forall|i: int, j: int|
                0 <= i < j < owned.len() ==> (#[trigger] owned[i]).owner < (
                #[trigger] owned[j]).owner
        }),
    decreases k,
{
    if 0 < k {
        owners_ascend(link, nulls, d, tables, first, start, k - 1);
        let before = owned_upto(link, nulls, d, tables, first, start, k - 1).owned;
        let after = owned_upto(link, nulls, d, tables, first, start, k).owned;
        assert(after == before || (after.len() == before.len() + 1 && after.drop_last() =~= before
            && after.last().owner == first + (k - 1)));
        assert forall|i: int| 0 <= i < after.len() implies first <= (#[trigger] after[i]).owner
            < first + k by {
            if i < before.len() {
                assert(after[i] == before[i]);
            }
        }
        assert forall|i: int, j: int| 0 <= i < j < after.len() implies (#[trigger] after[i]).owner
            < (#[trigger] after[j]).owner by {
            assert(after[i] == before[i]);
            if j < before.len() {
                assert(after[j] == before[j]);
            }
        }
    }
}

/// A binary that compiles has an entry for every class and for every name, and nothing
/// was said on the way.
pub proof fn a_binary_has_every_definition(
    link: LinkView,
    strings: Seq<Seq<char>>,
    classes: Seq<Seq<char>>,
    d: NamedView,
    tables: Seq<Seq<char>>,
    sources: SourcesView,
    said: Seq<DiagnosticView>,
)
    ensures
        ({
            let end = bin_outcome(link, strings, classes, d, tables, sources, said);
            match end.result {
                Ok((emitted, _)) => emitted.entries.len() == classes.len() + d.order.len()
                    && end.said.len() == said.len(),
                Err(_) => true,
            }
        }),
{
    let none = Emitted { entries: Seq::empty(), counters: Map::empty() };
    let n = classes.len() as int;
    if let (Ok(nulls), s) = emit::nulls_upto(link, strings, classes, n) {
        lemma_null_entries(s, tables, nulls, classes, none, n);
        if let (Ok(st), s) = emit::null_entries(s, tables, nulls, classes, none, n) {
            let start = NamedOutcome { emitted: st, strings: s, said, failed: 0 };
            let k = d.order.len() as int;
            lemma_named_said(link, tables, nulls, d, sources, start, k);
            let o = emit::named_upto(
                link,
                tables,
                nulls,
                d.defs,
                d.names,
                sources,
                start,
                d.order,
                k,
            );
            let start = OwnedOutcome {
                owned: Seq::empty(),
                strings: o.strings,
                said: o.said,
                failed: 0,
            };
            every_failed_block_is_said(link, nulls, d, tables, n as u32, start, k);
        }
    }
}

} // verus!
