//! The entries of a binary.

use vstd::prelude::*;

use super::inheritance;
use crate::build::attach;
use crate::build::attach::OwnedStoredView;
use crate::build::bin;
use crate::build::bin::NamedView;
use crate::build::blocks;
use crate::build::blocks::BlockView;
use crate::build::chunks;
use crate::build::diagnostics::DiagnosticView;
use crate::build::emit;
use crate::build::emit::{BuiltView, Emitted, NamedOutcome, NullView, SourcesView};
use crate::build::linking;
use crate::build::linking::{LinkView, TaskView};
use crate::lower::body;
use crate::lower::def::BodyView;
use crate::lower::env::LowerErrorView;
use crate::names;
use crate::text::ast::{DefinitionView, StatementView};
use crate::text::base::Spanned;

verus! {

// ── Preambles ────────────────────────────────────────────────────────────────

/// Whether an entry is a null definition of the class.
pub open spec fn is_null_entry(tables: Seq<Seq<char>>, class: Seq<char>, e: BuiltView) -> bool {
    &&& !e.preamble.is_real
    &&& !e.preamble.is_template
    &&& e.preamble.unknown_0 == 0
    &&& e.sub_defs is Some <==> tables.contains(class)
}

/// Whether an entry is a definition with a name.
pub open spec fn is_real_entry(tables: Seq<Seq<char>>, class: Seq<char>, e: BuiltView) -> bool {
    &&& e.preamble.is_real
    &&& !e.preamble.is_template
    &&& e.preamble.unknown_0 == 1
    &&& e.sub_defs is Some <==> tables.contains(class)
}

proof fn lemma_null_entries(
    strings: Seq<Seq<char>>,
    tables: Seq<Seq<char>>,
    nulls: Seq<NullView>,
    classes: Seq<Seq<char>>,
    st: Emitted,
    k: int,
)
    requires
        0 <= k <= classes.len(),
        st.entries.len() == 0,
    ensures
        emit::null_entries(strings, tables, nulls, classes, st, k).0 matches Ok(r) ==> {
            &&& r.entries.len() == k
            &&& forall|i: int|
                0 <= i < k ==> is_null_entry(tables, classes[i], #[trigger] r.entries[i]) && Some(
                    r.entries[i].body,
                ) == emit::null_of(nulls, classes[i], 0)
        },
    decreases k,
{
    if k > 0 {
        lemma_null_entries(strings, tables, nulls, classes, st, k - 1);
        if let (Ok(before), _) = emit::null_entries(strings, tables, nulls, classes, st, k - 1) {
            if let (Ok(r), _) = emit::null_entries(strings, tables, nulls, classes, st, k) {
                assert forall|i: int| 0 <= i < k implies is_null_entry(
                    tables,
                    classes[i],
                    #[trigger] r.entries[i],
                ) && Some(r.entries[i].body) == emit::null_of(nulls, classes[i], 0) by {
                    if i < k - 1 {
                        assert(r.entries[i] == before.entries[i]);
                    }
                }
            }
        }
    }
}

/// Whether the definitions of the first `k` names stand behind some entries.
spec fn named_entries(
    tables: Seq<Seq<char>>,
    d: NamedView,
    before: Seq<BuiltView>,
    after: Seq<BuiltView>,
    k: int,
) -> bool {
    let n = before.len();
    &&& after.len() == n + k
    &&& forall|i: int| 0 <= i < n ==> #[trigger] after[i] == before[i]
    &&& forall|p: int| n <= p < n + k ==> named_entry(tables, d, d.order[p - n], #[trigger] after[p])
}

/// Whether an entry is the definition of a name.
spec fn named_entry(tables: Seq<Seq<char>>, d: NamedView, name: Seq<char>, e: BuiltView) -> bool {
    d.names.contains_key(name) && is_real_entry(
        tables,
        d.defs[d.names[name] as int].def_type,
        e,
    )
}

proof fn lemma_failed(
    link: LinkView,
    tables: Seq<Seq<char>>,
    nulls: Seq<NullView>,
    d: NamedView,
    sources: SourcesView,
    o: NamedOutcome,
    k: int,
)
    requires
        0 <= k <= d.order.len(),
        emit::named_upto(link, tables, nulls, d.defs, d.names, sources, o, d.order, k).failed == 0,
    ensures
        named_entries(
            tables,
            d,
            o.emitted.entries,
            emit::named_upto(
                link,
                tables,
                nulls,
                d.defs,
                d.names,
                sources,
                o,
                d.order,
                k,
            ).emitted.entries,
            k,
        ),
    decreases k,
{
    if k > 0 {
        let before = emit::named_upto(
            link,
            tables,
            nulls,
            d.defs,
            d.names,
            sources,
            o,
            d.order,
            k - 1,
        );
        let r = emit::named_upto(link, tables, nulls, d.defs, d.names, sources, o, d.order, k);
        assert(r == emit::named_step(
            link,
            tables,
            nulls,
            d.defs,
            d.names,
            sources,
            before,
            d.order[k - 1],
        ));
        assert(before.failed == 0);
        assert(r.emitted.entries.len() == before.emitted.entries.len() + 1);
        lemma_failed(link, tables, nulls, d, sources, o, k - 1);
        let n = o.emitted.entries.len();
        assert forall|i: int| 0 <= i < n implies #[trigger] r.emitted.entries[i]
            == o.emitted.entries[i] by {
            assert(before.emitted.entries[i] == o.emitted.entries[i]);
        }
        let (b, a) = (before.emitted.entries, r.emitted.entries);
        assert(named_entry(tables, d, d.order[k - 1], a[n + k - 1]));
        assert forall|p: int| n <= p < n + k implies named_entry(
            tables,
            d,
            d.order[p - n],
            #[trigger] a[p],
        ) by {
            if p < n + k - 1 {
                assert(a[p] == b[p]);
            } else {
                assert(p - n == k - 1);
            }
        }
    } else {
        let r = emit::named_upto(link, tables, nulls, d.defs, d.names, sources, o, d.order, k);
        assert(r == o);
        assert(r.emitted.entries.len() == o.emitted.entries.len());
    }
}

/// The first entries of a binary are the null definitions of its classes, which are marked as
/// not real; the definitions with names follow in their order, marked as real. An entry has a
/// table of blocks exactly where its class has one.
pub proof fn null_definitions_come_before_real_ones(
    link: LinkView,
    strings: Seq<Seq<char>>,
    classes: Seq<Seq<char>>,
    d: NamedView,
    tables: Seq<Seq<char>>,
    sources: SourcesView,
    said: Seq<DiagnosticView>,
    i: int,
)
    ensures
        bin::bin_outcome(link, strings, classes, d, tables, sources, said).result matches Ok(r)
            ==> {
            &&& r.0.entries.len() == classes.len() + d.order.len()
            &&& 0 <= i < classes.len() ==> is_null_entry(tables, classes[i], r.0.entries[i])
            &&& 0 <= i < d.order.len() ==> d.names.contains_key(d.order[i]) && is_real_entry(
                tables,
                d.defs[d.names[d.order[i]] as int].def_type,
                r.0.entries[classes.len() + i],
            )
        },
{
    let none = Emitted { entries: Seq::empty(), counters: Map::empty() };
    let n = classes.len() as int;
    if let (Ok(nulls), s) = emit::nulls_upto(link, strings, classes, n) {
        lemma_null_entries(s, tables, nulls, classes, none, n);
        if let (Ok(st), s) = emit::null_entries(s, tables, nulls, classes, none, n) {
            let start = NamedOutcome { emitted: st, strings: s, said, failed: 0 };
            let k = d.order.len() as int;
            let o = emit::named_upto(
                link,
                tables,
                nulls,
                d.defs,
                d.names,
                sources,
                start,
                d.order,
                k,
            );
            if o.failed == 0 {
                lemma_failed(link, tables, nulls, d, sources, start, k);
                if 0 <= i < n {
                    assert(o.emitted.entries[i] == st.entries[i]);
                }
                if 0 <= i < k {
                    assert(named_entry(tables, d, d.order[n + i - n], o.emitted.entries[n + i]));
                }
            }
        }
    }
}

/// Attaching blocks keeps every entry that there is, but for its table, and puts the blocks
/// behind them: real entries without a name of their own.
pub proof fn blocks_stand_behind_the_entries(
    tables: Seq<Seq<char>>,
    st: Emitted,
    owned: Seq<OwnedStoredView>,
    i: int,
)
    requires
        attach::owners_within(owned, st.entries.len() as int),
    ensures
        ({
            let r = attach::attached(tables, st, owned).entries;
            &&& r.len() == st.entries.len() + attach::subs_of(st, owned).len()
            &&& 0 <= i < st.entries.len() ==> r[i].body == st.entries[i].body && r[i].def_name_off
                == st.entries[i].def_name_off && r[i].file_name_off == st.entries[i].file_name_off
                && r[i].counter == st.entries[i].counter && r[i].preamble == st.entries[i].preamble
            &&& st.entries.len() <= i < r.len() ==> r[i].file_name_off == 0xffff_ffffu32
                && r[i].preamble.is_real && !r[i].preamble.is_template && r[i].preamble.unknown_0
                == 1
        }),
{
    let none = blocks::Shared { subs: Seq::empty(), counters: st.counters };
    lemma_tables_keep(none, st.entries, owned, owned.len() as int);
}

proof fn lemma_tables_keep(
    s: blocks::Shared,
    entries: Seq<BuiltView>,
    owned: Seq<OwnedStoredView>,
    k: int,
)
    requires
        0 <= k <= owned.len(),
        attach::owners_within(owned, entries.len() as int),
    ensures
        ({
            let r = attach::tables_upto(s, entries, owned, k).1;
            &&& r.len() == entries.len()
            &&& forall|i: int|
                0 <= i < entries.len() ==> (BuiltView {
                    sub_defs: entries[i].sub_defs,
                    ..#[trigger] r[i]
                }) == entries[i]
        }),
    decreases k,
{
    if k > 0 {
        lemma_tables_keep(s, entries, owned, k - 1);
        assert(owned[k - 1].owner < entries.len());
    }
}

// ── Inheritance ──────────────────────────────────────────────────────────────

/// A child of the same class without statements of its own is lowered to what its parent is.
pub proof fn a_child_without_statements_is_its_parent(
    link: LinkView,
    strings: Seq<Seq<char>>,
    nulls: Seq<NullView>,
    defs: Seq<DefinitionView>,
    names: Map<Seq<char>, usize>,
    child: usize,
    parent: usize,
)
    requires
        child < defs.len(),
        body::names_defs(names, defs.len() as int),
        defs[child as int].specializes matches Some(p) && names.contains_key(p) && names[p]
            == parent,
        defs[child as int].def_type == defs[parent as int].def_type,
        defs[child as int].body.len() == 0,
        body::flattened(defs, names, child) is Ok,
    ensures
        emit::named_body(link, strings, nulls, defs, names, child) == emit::named_body(
            link,
            strings,
            nulls,
            defs,
            names,
            parent,
        ),
{
    inheritance::a_child_adds_to_its_parent(defs, names, child, parent);
    let s = body::flattened(defs, names, parent)->Ok_0;
    assert(s + defs[child as int].body =~= s);
}

// ── Indices of classes ───────────────────────────────────────────────────────

/// The classes of the entries of a binary: those of the null definitions, and those of the
/// first `k` names.
pub open spec fn classes_of(classes: Seq<Seq<char>>, d: NamedView, k: int) -> Seq<Seq<char>> {
    classes + Seq::new(k as nat, |i: int| d.defs[d.names[d.order[i]] as int].def_type)
}

/// Whether a class is the given one.
pub open spec fn is_class(class: Seq<char>) -> spec_fn(Seq<char>) -> bool {
    |c: Seq<char>| c == class
}

/// Whether the entries are counted by class.
spec fn counts(st: Emitted, all: Seq<Seq<char>>) -> bool {
    &&& st.entries.len() == all.len()
    &&& st.counters == emit::counters_of(all, all.len() as int)
    &&& forall|p: int|
        0 <= p < all.len() ==> (#[trigger] st.entries[p]).counter == emit::class_count(
            emit::counters_of(all, p),
            all[p],
        )
}

proof fn lemma_counters(a: Seq<Seq<char>>, b: Seq<Seq<char>>, k: int)
    requires
        0 <= k <= a.len(),
        k <= b.len(),
        forall|i: int| 0 <= i < k ==> a[i] == b[i],
    ensures
        emit::counters_of(a, k) == emit::counters_of(b, k),
    decreases k,
{
    if k > 0 {
        lemma_counters(a, b, k - 1);
    }
}

proof fn lemma_counted(
    tables: Seq<Seq<char>>,
    st: Emitted,
    all: Seq<Seq<char>>,
    class: Seq<char>,
    at: (u32, u32),
    preamble: emit::EntryPreamble,
    body: BodyView,
)
    requires
        counts(st, all),
    ensures
        counts(emit::with_entry(tables, st, class, at, preamble, body), all.push(class)),
{
    let more = all.push(class);
    let r = emit::with_entry(tables, st, class, at, preamble, body);
    let n = all.len() as int;
    lemma_counters(more, all, n);
    assert(emit::counters_of(more, n + 1) == emit::counted(emit::counters_of(more, n), more[n]));
    assert forall|p: int| 0 <= p < more.len() implies (#[trigger] r.entries[p]).counter
        == emit::class_count(emit::counters_of(more, p), more[p]) by {
        lemma_counters(more, all, p);
        if p < n {
            assert(r.entries[p] == st.entries[p]);
        }
    }
}

proof fn lemma_nulls_counted(
    strings: Seq<Seq<char>>,
    tables: Seq<Seq<char>>,
    nulls: Seq<NullView>,
    classes: Seq<Seq<char>>,
    st: Emitted,
    k: int,
)
    requires
        0 <= k <= classes.len(),
        counts(st, Seq::empty()),
    ensures
        emit::null_entries(strings, tables, nulls, classes, st, k).0 matches Ok(r) ==> counts(
            r,
            classes.take(k),
        ),
    decreases k,
{
    if k > 0 {
        lemma_nulls_counted(strings, tables, nulls, classes, st, k - 1);
        let class = classes[k - 1];
        assert(classes.take(k) =~= classes.take(k - 1).push(class));
        if let (Ok(before), s) = emit::null_entries(strings, tables, nulls, classes, st, k - 1) {
            if let Some(body) = emit::null_of(nulls, class, 0) {
                let name = "NULLDEF_"@ + class;
                let s = names::held(names::held(s, class), name);
                if let Ok(at) = emit::offsets(s, class, name) {
                    lemma_counted(
                        tables,
                        before,
                        classes.take(k - 1),
                        class,
                        at,
                        emit::null_preamble(),
                        body,
                    );
                }
            }
        }
    } else {
        assert(classes.take(0) =~= Seq::empty());
    }
}

proof fn lemma_named_counted(
    link: LinkView,
    tables: Seq<Seq<char>>,
    nulls: Seq<NullView>,
    d: NamedView,
    sources: SourcesView,
    o: NamedOutcome,
    classes: Seq<Seq<char>>,
    k: int,
)
    requires
        0 <= k <= d.order.len(),
        counts(o.emitted, classes),
        emit::named_upto(link, tables, nulls, d.defs, d.names, sources, o, d.order, k).failed == 0,
    ensures
        counts(
            emit::named_upto(
                link,
                tables,
                nulls,
                d.defs,
                d.names,
                sources,
                o,
                d.order,
                k,
            ).emitted,
            classes_of(classes, d, k),
        ),
    decreases k,
{
    if k > 0 {
        let before = emit::named_upto(
            link,
            tables,
            nulls,
            d.defs,
            d.names,
            sources,
            o,
            d.order,
            k - 1,
        );
        let name = d.order[k - 1];
        let r = emit::named_upto(link, tables, nulls, d.defs, d.names, sources, o, d.order, k);
        assert(r == emit::named_step(
            link,
            tables,
            nulls,
            d.defs,
            d.names,
            sources,
            before,
            name,
        ));
        assert(before.failed == 0);
        lemma_named_counted(link, tables, nulls, d, sources, o, classes, k - 1);
        let i = d.names[name];
        let class = d.defs[i as int].def_type;
        let all = classes_of(classes, d, k - 1);
        assert(classes_of(classes, d, k) =~= all.push(class));
        let s = names::held(names::held(before.strings, class), name);
        let at = emit::offsets(s, class, name)->Ok_0;
        let body = emit::named_body(link, s, nulls, d.defs, d.names, i).0->Ok_0;
        lemma_counted(tables, before.emitted, all, class, at, emit::named_preamble(), body);
    } else {
        assert(classes_of(classes, d, 0) =~= classes);
    }
}

/// The counter of an entry is the number of entries of its class that stand before it, null
/// definitions included.
pub proof fn entries_are_counted_by_class(
    link: LinkView,
    strings: Seq<Seq<char>>,
    classes: Seq<Seq<char>>,
    d: NamedView,
    tables: Seq<Seq<char>>,
    sources: SourcesView,
    said: Seq<DiagnosticView>,
    p: int,
)
    requires
        classes.len() + d.order.len() <= u32::MAX,
    ensures
        bin::bin_outcome(link, strings, classes, d, tables, sources, said).result matches Ok(r)
            ==> {
            let all = classes_of(classes, d, d.order.len() as int);
            0 <= p < all.len() ==> r.0.entries[p].counter == all.take(p).filter(
                is_class(all[p]),
            ).len()
        },
{
    let none = Emitted { entries: Seq::empty(), counters: Map::empty() };
    let n = classes.len() as int;
    let all = classes_of(classes, d, d.order.len() as int);
    if let (Ok(nulls), s) = emit::nulls_upto(link, strings, classes, n) {
        assert(counts(none, Seq::empty()));
        lemma_nulls_counted(s, tables, nulls, classes, none, n);
        assert(classes.take(n) =~= classes);
        if let (Ok(st), s) = emit::null_entries(s, tables, nulls, classes, none, n) {
            let start = NamedOutcome { emitted: st, strings: s, said, failed: 0 };
            let k = d.order.len() as int;
            let o = emit::named_upto(
                link,
                tables,
                nulls,
                d.defs,
                d.names,
                sources,
                start,
                d.order,
                k,
            );
            if o.failed == 0 {
                lemma_named_counted(link, tables, nulls, d, sources, start, classes, k);
                if 0 <= p < all.len() {
                    emit::class_indices_count_their_class(all, all[p], p);
                    lemma_occurrences(all, all[p], p);
                }
            }
        }
    }
}

proof fn lemma_occurrences(all: Seq<Seq<char>>, class: Seq<char>, k: int)
    requires
        0 <= k <= all.len(),
    ensures
        emit::occurrences(all, class, k) == all.take(k).filter(is_class(class)).len(),
    decreases k,
{
    reveal(Seq::filter);
    if k > 0 {
        lemma_occurrences(all, class, k - 1);
        assert(all.take(k).drop_last() =~= all.take(k - 1));
        assert(all.take(k).last() == all[k - 1]);
    } else {
        assert(all.take(0).len() == 0);
    }
}

// ── Lowering ─────────────────────────────────────────────────────────────────

proof fn lemma_null(nulls: Seq<NullView>, class: Seq<char>, k: int, i: int)
    requires
        0 <= k <= i < nulls.len(),
        nulls[i].class == class,
        forall|j: int| 0 <= j < i ==> (#[trigger] nulls[j]).class != class,
    ensures
        emit::null_of(nulls, class, k) == Some(nulls[i].body),
    decreases i - k,
{
    if k < i {
        assert(nulls[k].class != class);
        lemma_null(nulls, class, k + 1, i);
    }
}

/// A definition is lowered from its own statements and those that it inherits, onto the null
/// definition of its class.
pub proof fn definitions_are_lowered_onto_their_null(
    link: LinkView,
    strings: Seq<Seq<char>>,
    nulls: Seq<NullView>,
    defs: Seq<DefinitionView>,
    names: Map<Seq<char>, usize>,
    d: usize,
    statements: Seq<Spanned<StatementView>>,
    i: int,
)
    requires
        d < defs.len(),
        body::flattened(defs, names, d) == Ok::<Seq<Spanned<StatementView>>, LowerErrorView>(
            statements,
        ),
        0 <= i < nulls.len(),
        nulls[i].class == defs[d as int].def_type,
        forall|j: int| 0 <= j < i ==> (#[trigger] nulls[j]).class != nulls[i].class,
    ensures
        emit::named_body(link, strings, nulls, defs, names, d) == linking::lowering(
            link,
            strings,
            (TaskView {
                class: nulls[i].class,
                base: Some(nulls[i].body),
                body: statements,
            }),
        ),
{
    lemma_null(nulls, nulls[i].class, 0, i);
}

/// A block is lowered from its statements onto the null definition of its tag, and bears the
/// offset of the tag.
pub proof fn blocks_are_lowered_onto_their_null(
    link: LinkView,
    strings: Seq<Seq<char>>,
    nulls: Seq<NullView>,
    b: BlockView,
    i: int,
)
    requires
        0 <= i < nulls.len(),
        nulls[i].class == b.tag,
        forall|j: int| 0 <= j < i ==> (#[trigger] nulls[j]).class != b.tag,
    ensures
        ({
            let r = blocks::block_body(link, strings, nulls, b);
            let alone = linking::lowering(
                link,
                strings,
                TaskView { class: b.tag, base: Some(nulls[i].body), body: b.body },
            );
            &&& (r.0 matches Ok((x, o)) ==> alone.0 == Ok::<BodyView, LowerErrorView>(x)
                && names::found_offset(r.1, b.tag) == Some(o))
            &&& (alone.0 matches Err(x) ==> r.0 == Err::<(BodyView, u32), LowerErrorView>(x))
        }),
{
    lemma_null(nulls, b.tag, 0, i);
}

/// Every block of a definition is lowered, in order, or an error is said of it.
pub proof fn every_block_is_lowered(
    link: LinkView,
    strings: Seq<Seq<char>>,
    nulls: Seq<NullView>,
    name: Seq<char>,
    v: Seq<BlockView>,
    said: Seq<DiagnosticView>,
    k: int,
)
    requires
        0 <= k <= v.len(),
    ensures
        ({
            let o = blocks::lowered_blocks(link, strings, nulls, name, v, said, k);
            &&& o.lowered.len() + o.failed == k
            &&& o.said.len() == said.len() + o.failed
            &&& o.failed == 0 ==> forall|i: int|
                0 <= i < k ==> (#[trigger] o.lowered[i]).tag == v[i].tag && o.lowered[i].crc
                    == v[i].crc
        }),
    decreases k,
{
    if k > 0 {
        every_block_is_lowered(link, strings, nulls, name, v, said, k - 1);
    }
}

proof fn lemma_null_kept(nulls: Seq<NullView>, class: Seq<char>, k: int)
    requires
        0 <= k <= nulls.len(),
    ensures
        emit::null_of(nulls, class, k) is Some <==> exists|i: int|
            k <= i < nulls.len() && (#[trigger] nulls[i]).class == class,
    decreases nulls.len() - k,
{
    if k < nulls.len() && nulls[k].class != class {
        lemma_null_kept(nulls, class, k + 1);
    }
}

/// Every class has one null definition, lowered from no statements and onto nothing.
pub proof fn every_class_has_a_null_definition(
    link: LinkView,
    strings: Seq<Seq<char>>,
    classes: Seq<Seq<char>>,
    k: int,
)
    requires
        0 <= k <= classes.len(),
    ensures
        emit::nulls_upto(link, strings, classes, k).0 matches Ok(nulls) ==> {
            &&& forall|c: int|
                0 <= c < k ==> exists|i: int|
                    0 <= i < nulls.len() && (#[trigger] nulls[i]).class == #[trigger] classes[c]
            &&& forall|i: int, j: int|
                0 <= i < j < nulls.len() ==> (#[trigger] nulls[i]).class != (
                #[trigger] nulls[j]).class
            &&& forall|i: int|
                0 <= i < nulls.len() ==> is_lowered_from_nothing(link, #[trigger] nulls[i])
        },
    decreases k,
{
    if k > 0 {
        every_class_has_a_null_definition(link, strings, classes, k - 1);
        let class = classes[k - 1];
        if let (Ok(before), s) = emit::nulls_upto(link, strings, classes, k - 1) {
            lemma_null_kept(before, class, 0);
            if let Ok(nulls) = emit::nulls_upto(link, strings, classes, k).0 {
                if emit::null_of(before, class, 0) is None {
                    assert(nulls.last().class == class);
                    assert(is_lowered_from_nothing(link, nulls.last())) by {
                        let r = linking::lowering(
                            link,
                            s,
                            TaskView { class, base: None, body: Seq::empty() },
                        );
                        assert(r.0 == Ok::<BodyView, LowerErrorView>(nulls.last().body));
                    }
                    assert forall|c: int| 0 <= c < k implies exists|i: int|
                        0 <= i < nulls.len() && (#[trigger] nulls[i]).class
                            == #[trigger] classes[c] by {
                        if c < k - 1 {
                            let i = choose|i: int|
                                0 <= i < before.len() && (#[trigger] before[i]).class == classes[c];
                            assert(nulls[i].class == classes[c]);
                        }
                    }
                }
            }
        }
    }
}

/// Whether a null definition is what its class is lowered to without a statement.
pub open spec fn is_lowered_from_nothing(link: LinkView, x: NullView) -> bool {
    exists|s: Seq<Seq<char>>|
        (#[trigger] linking::lowering(
            link,
            s,
            TaskView { class: x.class, base: None, body: Seq::empty() },
        )).0 == Ok::<BodyView, LowerErrorView>(x.body)
}

// ── Chunks ───────────────────────────────────────────────────────────────────

proof fn lemma_chunk_end(sizes: Seq<usize>, from: int, to: int)
    requires
        0 <= from <= to <= sizes.len(),
    ensures
        ({
            let end = chunks::chunk_end(sizes, from, to);
            &&& to <= end <= sizes.len()
            &&& end < sizes.len() ==> chunks::total(sizes, from, end) > 0 && chunks::total(
                sizes,
                from,
                end,
            ) + sizes[end] > chunks::TARGET
            &&& forall|i: int|
                to <= i < end ==> chunks::total(sizes, from, i) == 0 || #[trigger] chunks::total(
                    sizes,
                    from,
                    i,
                ) + sizes[i] <= chunks::TARGET
        }),
    decreases sizes.len() - to,
{
    if to < sizes.len() && !(chunks::total(sizes, from, to) > 0 && chunks::total(sizes, from, to)
        + sizes[to] > chunks::TARGET) {
        lemma_chunk_end(sizes, from, to + 1);
    }
}

/// A chunk is closed at the entry with which it would be too large, and not before; it is too
/// large itself only where its first entries of any size are one.
pub proof fn chunks_are_filled_up(sizes: Seq<usize>, from: int)
    requires
        0 <= from < sizes.len(),
    ensures
        ({
            let end = chunks::chunk_end(sizes, from, from);
            &&& from < end <= sizes.len()
            &&& end < sizes.len() ==> chunks::total(sizes, from, end) + sizes[end] > 16384
            &&& chunks::total(sizes, from, end) > 16384 ==> chunks::total(
                sizes,
                from,
                end - 1,
            ) == 0
        }),
{
    lemma_chunk_end(sizes, from, from);
    let end = chunks::chunk_end(sizes, from, from);
    assert(chunks::total(sizes, from, from) == 0);
    if from < end {
        assert(chunks::total(sizes, from, end) == chunks::total(sizes, from, end - 1) + sizes[end
            - 1]);
        assert(chunks::total(sizes, from, end - 1) == 0 || chunks::total(sizes, from, end - 1)
            + sizes[end - 1] <= 16384);
    }
}

} // verus!
