//! The strings that a binary asks for, in the order in which it asks for them. The table of
//! names holds them in that order, and nothing else.

use vstd::prelude::*;

use crate::build::bin;
use crate::build::bin::{NamedView, OwnedOutcome};
use crate::build::blocks;
use crate::build::blocks::BlockView;
use crate::build::diagnostics::DiagnosticView;
use crate::build::emit;
use crate::build::emit::{Emitted, NamedOutcome, NullView, SourcesView};
use crate::build::linking;
use crate::build::linking::{LinkView, TaskView};
use crate::lower::body;
use crate::names;

verus! {

/// The strings that the null definitions of the first `k` classes ask for.
pub open spec fn nulls_asked(
    link: LinkView,
    strings: Seq<Seq<char>>,
    classes: Seq<Seq<char>>,
    k: int,
) -> Seq<Seq<char>>
    decreases k,
{
    if k <= 0 || k > classes.len() {
        Seq::empty()
    } else {
        let class = classes[k - 1];
        nulls_asked(link, strings, classes, k - 1) + match emit::nulls_upto(
            link,
            strings,
            classes,
            k - 1,
        ) {
            (Ok(nulls), s) => if emit::null_of(nulls, class, 0) is None {
                linking::asked(link, s, emit::null_task(class))
            } else {
                Seq::empty()
            },
            (Err(_), _) => Seq::empty(),
        }
    }
}

/// The classes and the names of the null definitions of the first `k` entries.
pub open spec fn null_names(
    strings: Seq<Seq<char>>,
    tables: Seq<Seq<char>>,
    nulls: Seq<NullView>,
    classes: Seq<Seq<char>>,
    st: Emitted,
    k: int,
) -> Seq<Seq<char>>
    decreases k,
{
    if k <= 0 || k > classes.len() {
        Seq::empty()
    } else {
        let class = classes[k - 1];
        null_names(strings, tables, nulls, classes, st, k - 1) + match emit::null_entries(
            strings,
            tables,
            nulls,
            classes,
            st,
            k - 1,
        ) {
            (Ok(_), _) => if emit::null_of(nulls, class, 0) is Some {
                seq![class, "NULLDEF_"@ + class]
            } else {
                Seq::empty()
            },
            (Err(_), _) => Seq::empty(),
        }
    }
}

/// The strings that the definition `name` asks for: its class, its name, and what lowering
/// it asks for.
pub open spec fn name_asked(
    link: LinkView,
    strings: Seq<Seq<char>>,
    nulls: Seq<NullView>,
    d: NamedView,
    name: Seq<char>,
) -> Seq<Seq<char>> {
    if !d.names.contains_key(name) {
        Seq::empty()
    } else {
        let i = d.names[name];
        let class = d.defs[i as int].def_type;
        let own = seq![class, name];
        let s = names::held_all(strings, own);
        match (emit::offsets(s, class, name), body::flattened(d.defs, d.names, i)) {
            (Ok(_), Ok(body)) => own + linking::asked(
                link,
                s,
                TaskView { class, base: emit::null_of(nulls, class, 0), body },
            ),
            _ => own,
        }
    }
}

/// The strings that the first `k` named definitions ask for.
pub open spec fn named_asked(
    link: LinkView,
    tables: Seq<Seq<char>>,
    nulls: Seq<NullView>,
    d: NamedView,
    sources: SourcesView,
    o: NamedOutcome,
    k: int,
) -> Seq<Seq<char>>
    decreases k,
{
    if k <= 0 || k > d.order.len() {
        Seq::empty()
    } else {
        let before = emit::named_upto(
            link,
            tables,
            nulls,
            d.defs,
            d.names,
            sources,
            o,
            d.order,
            k - 1,
        );
        named_asked(link, tables, nulls, d, sources, o, k - 1) + name_asked(
            link,
            before.strings,
            nulls,
            d,
            d.order[k - 1],
        )
    }
}

/// The strings that a block asks for: what lowering it asks for, and, where it lowers, its
/// tag.
pub open spec fn block_asked(
    link: LinkView,
    strings: Seq<Seq<char>>,
    nulls: Seq<NullView>,
    b: BlockView,
) -> Seq<Seq<char>> {
    let t = TaskView { class: b.tag, base: emit::null_of(nulls, b.tag, 0), body: b.body };
    let own = linking::asked(link, strings, t);
    if linking::lowering(link, strings, t).0 is Ok {
        own + seq![b.tag]
    } else {
        own
    }
}

/// The strings that the first `k` blocks of the definition `name` ask for.
pub open spec fn blocks_asked(
    link: LinkView,
    strings: Seq<Seq<char>>,
    nulls: Seq<NullView>,
    name: Seq<char>,
    v: Seq<BlockView>,
    said: Seq<DiagnosticView>,
    k: int,
) -> Seq<Seq<char>>
    decreases k,
{
    if k <= 0 || k > v.len() {
        Seq::empty()
    } else {
        let before = blocks::lowered_blocks(link, strings, nulls, name, v, said, k - 1);
        blocks_asked(link, strings, nulls, name, v, said, k - 1) + block_asked(
            link,
            before.strings,
            nulls,
            v[k - 1],
        )
    }
}

/// The strings that the blocks of the first `k` named definitions ask for.
pub open spec fn owned_asked(
    link: LinkView,
    nulls: Seq<NullView>,
    d: NamedView,
    tables: Seq<Seq<char>>,
    first: u32,
    start: OwnedOutcome,
    k: int,
) -> Seq<Seq<char>>
    decreases k,
{
    if k <= 0 || k > d.order.len() {
        Seq::empty()
    } else {
        let o = bin::owned_upto(link, nulls, d, tables, first, start, k - 1);
        let name = d.order[k - 1];
        let v = bin::blocks_of(d, tables, name);
        owned_asked(link, nulls, d, tables, first, start, k - 1) + blocks_asked(
            link,
            o.strings,
            nulls,
            name,
            v,
            o.said,
            v.len() as int,
        )
    }
}

/// The strings that a binary asks for, as far as it gets: those of the bodies of its null
/// definitions; each class and the name of its null definition; for each named definition
/// its class, its name and the strings of its body; and for each block the strings of its
/// body and its tag.
pub open spec fn bin_asked(
    link: LinkView,
    strings: Seq<Seq<char>>,
    classes: Seq<Seq<char>>,
    d: NamedView,
    tables: Seq<Seq<char>>,
    sources: SourcesView,
    said: Seq<DiagnosticView>,
) -> Seq<Seq<char>> {
    let none = Emitted { entries: Seq::empty(), counters: Map::empty() };
    let n = classes.len() as int;
    let k = d.order.len() as int;
    let of_nulls = nulls_asked(link, strings, classes, n);
    match emit::nulls_upto(link, strings, classes, n) {
        (Err(_), _) => of_nulls,
        (Ok(nulls), s) => {
            let of_classes = null_names(s, tables, nulls, classes, none, n);
            match emit::null_entries(s, tables, nulls, classes, none, n) {
                (Err(_), _) => of_nulls + of_classes,
                (Ok(st), s) => {
                    let start = NamedOutcome { emitted: st, strings: s, said, failed: 0 };
                    let of_names = named_asked(link, tables, nulls, d, sources, start, k);
                    let o = emit::named_upto(
                        link,
                        tables,
                        nulls,
                        d.defs,
                        d.names,
                        sources,
                        start,
                        d.order,
                        k,
                    );
                    if o.failed > 0 {
                        of_nulls + of_classes + of_names
                    } else {
                        of_nulls + of_classes + of_names + owned_asked(
                            link,
                            nulls,
                            d,
                            tables,
                            n as u32,
                            OwnedOutcome {
                                owned: Seq::empty(),
                                strings: o.strings,
                                said: o.said,
                                failed: 0,
                            },
                            k,
                        )
                    }
                },
            }
        },
    }
}

// ── The table ────────────────────────────────────────────────────────────────

/// Holding two strings, or one, is holding them in turn.
pub proof fn lemma_two(strings: Seq<Seq<char>>, a: Seq<char>, b: Seq<char>)
    ensures
        names::held_all(strings, seq![a, b]) == names::held(names::held(strings, a), b),
        names::held_all(strings, seq![a]) == names::held(strings, a),
{
    reveal_with_fuel(names::held_all, 3);
    assert(seq![a, b].drop_last() =~= seq![a]);
    assert(seq![a].drop_last() =~= Seq::<Seq<char>>::empty());
}

proof fn lemma_none(strings: Seq<Seq<char>>)
    ensures
        names::held_all(strings, Seq::empty()) == strings,
{
}

proof fn lemma_nulls(link: LinkView, strings: Seq<Seq<char>>, classes: Seq<Seq<char>>, k: int)
    ensures
        emit::nulls_upto(link, strings, classes, k).1 == names::held_all(
            strings,
            nulls_asked(link, strings, classes, k),
        ),
    decreases k,
{
    if 0 < k <= classes.len() {
        lemma_nulls(link, strings, classes, k - 1);
        let before = nulls_asked(link, strings, classes, k - 1);
        let class = classes[k - 1];
        assert(before + Seq::<Seq<char>>::empty() =~= before);
        match emit::nulls_upto(link, strings, classes, k - 1) {
            (Ok(nulls), s) => if emit::null_of(nulls, class, 0) is None {
                reveal(linking::lowering);
                names::lemma_held_concat(
                    strings,
                    before,
                    linking::asked(link, s, emit::null_task(class)),
                );
            },
            _ => {},
        }
    }
}

/// Null definitions add their classes and their names.
pub proof fn lemma_null_names(
    strings: Seq<Seq<char>>,
    tables: Seq<Seq<char>>,
    nulls: Seq<NullView>,
    classes: Seq<Seq<char>>,
    st: Emitted,
    k: int,
)
    ensures
        emit::null_entries(strings, tables, nulls, classes, st, k).1 == names::held_all(
            strings,
            null_names(strings, tables, nulls, classes, st, k),
        ),
    decreases k,
{
    if 0 < k <= classes.len() {
        lemma_null_names(strings, tables, nulls, classes, st, k - 1);
        let before = null_names(strings, tables, nulls, classes, st, k - 1);
        let class = classes[k - 1];
        assert(before + Seq::<Seq<char>>::empty() =~= before);
        match emit::null_entries(strings, tables, nulls, classes, st, k - 1) {
            (Ok(_), s) => {
                names::lemma_held_concat(strings, before, seq![class, "NULLDEF_"@ + class]);
                lemma_two(s, class, "NULLDEF_"@ + class);
            },
            _ => {},
        }
    }
}

/// One more name adds what it asks for.
pub proof fn lemma_name(
    link: LinkView,
    tables: Seq<Seq<char>>,
    nulls: Seq<NullView>,
    d: NamedView,
    sources: SourcesView,
    o: NamedOutcome,
    name: Seq<char>,
)
    ensures
        emit::named_step(link, tables, nulls, d.defs, d.names, sources, o, name).strings
            == names::held_all(o.strings, name_asked(link, o.strings, nulls, d, name)),
{
    lemma_none(o.strings);
    if d.names.contains_key(name) {
        let i = d.names[name];
        let class = d.defs[i as int].def_type;
        let own = seq![class, name];
        let s = names::held_all(o.strings, own);
        lemma_two(o.strings, class, name);
        reveal(linking::lowering);
        match body::flattened(d.defs, d.names, i) {
            Ok(body) => {
                let t = TaskView { class, base: emit::null_of(nulls, class, 0), body };
                names::lemma_held_concat(o.strings, own, linking::asked(link, s, t));
            },
            Err(_) => {},
        }
    }
}

/// Named definitions add what they ask for.
pub proof fn lemma_named(
    link: LinkView,
    tables: Seq<Seq<char>>,
    nulls: Seq<NullView>,
    d: NamedView,
    sources: SourcesView,
    o: NamedOutcome,
    k: int,
)
    ensures
        emit::named_upto(
            link,
            tables,
            nulls,
            d.defs,
            d.names,
            sources,
            o,
            d.order,
            k,
        ).strings == names::held_all(
            o.strings,
            named_asked(link, tables, nulls, d, sources, o, k),
        ),
    decreases k,
{
    lemma_none(o.strings);
    if 0 < k <= d.order.len() {
        lemma_named(link, tables, nulls, d, sources, o, k - 1);
        let before = emit::named_upto(
            link,
            tables,
            nulls,
            d.defs,
            d.names,
            sources,
            o,
            d.order,
            k - 1,
        );
        let name = d.order[k - 1];
        lemma_name(link, tables, nulls, d, sources, before, name);
        names::lemma_held_concat(
            o.strings,
            named_asked(link, tables, nulls, d, sources, o, k - 1),
            name_asked(link, before.strings, nulls, d, name),
        );
    }
}

/// A block adds what it asks for.
pub proof fn lemma_block(link: LinkView, strings: Seq<Seq<char>>, nulls: Seq<NullView>, b: BlockView)
    ensures
        blocks::block_body(link, strings, nulls, b).1 == names::held_all(
            strings,
            block_asked(link, strings, nulls, b),
        ),
{
    let t = TaskView { class: b.tag, base: emit::null_of(nulls, b.tag, 0), body: b.body };
    reveal(linking::lowering);
    let own = linking::asked(link, strings, t);
    names::lemma_held_concat(strings, own, seq![b.tag]);
    lemma_two(names::held_all(strings, own), b.tag, b.tag);
}

/// The blocks of a definition add what they ask for.
pub proof fn lemma_blocks(
    link: LinkView,
    strings: Seq<Seq<char>>,
    nulls: Seq<NullView>,
    name: Seq<char>,
    v: Seq<BlockView>,
    said: Seq<DiagnosticView>,
    k: int,
)
    ensures
        blocks::lowered_blocks(link, strings, nulls, name, v, said, k).strings == names::held_all(
            strings,
            blocks_asked(link, strings, nulls, name, v, said, k),
        ),
    decreases k,
{
    lemma_none(strings);
    if 0 < k <= v.len() {
        lemma_blocks(link, strings, nulls, name, v, said, k - 1);
        let before = blocks::lowered_blocks(link, strings, nulls, name, v, said, k - 1);
        lemma_block(link, before.strings, nulls, v[k - 1]);
        names::lemma_held_concat(
            strings,
            blocks_asked(link, strings, nulls, name, v, said, k - 1),
            block_asked(link, before.strings, nulls, v[k - 1]),
        );
    }
}

/// The blocks of all definitions add what they ask for.
pub proof fn lemma_owned(
    link: LinkView,
    nulls: Seq<NullView>,
    d: NamedView,
    tables: Seq<Seq<char>>,
    first: u32,
    start: OwnedOutcome,
    k: int,
)
    ensures
        bin::owned_upto(link, nulls, d, tables, first, start, k).strings == names::held_all(
            start.strings,
            owned_asked(link, nulls, d, tables, first, start, k),
        ),
    decreases k,
{
    lemma_none(start.strings);
    if 0 < k <= d.order.len() {
        lemma_owned(link, nulls, d, tables, first, start, k - 1);
        let before = owned_asked(link, nulls, d, tables, first, start, k - 1);
        let o = bin::owned_upto(link, nulls, d, tables, first, start, k - 1);
        let name = d.order[k - 1];
        let v = bin::blocks_of(d, tables, name);
        let n = v.len() as int;
        lemma_blocks(link, o.strings, nulls, name, v, o.said, n);
        names::lemma_held_concat(
            start.strings,
            before,
            blocks_asked(link, o.strings, nulls, name, v, o.said, n),
        );
        assert(before + Seq::<Seq<char>>::empty() =~= before);
    }
}

/// The table of names holds, behind what it held before, what a binary asks for, each
/// string once, in the order in which it is first asked for; and nothing else.
pub proof fn a_binary_adds_what_it_asks_for(
    link: LinkView,
    strings: Seq<Seq<char>>,
    classes: Seq<Seq<char>>,
    d: NamedView,
    tables: Seq<Seq<char>>,
    sources: SourcesView,
    said: Seq<DiagnosticView>,
)
    ensures
        bin::bin_outcome(link, strings, classes, d, tables, sources, said).strings
            == names::held_all(
            strings,
            bin_asked(link, strings, classes, d, tables, sources, said),
        ),
{
    let none = Emitted { entries: Seq::empty(), counters: Map::empty() };
    let n = classes.len() as int;
    let k = d.order.len() as int;
    let of_nulls = nulls_asked(link, strings, classes, n);
    lemma_nulls(link, strings, classes, n);
    if let (Ok(nulls), s) = emit::nulls_upto(link, strings, classes, n) {
        let of_classes = null_names(s, tables, nulls, classes, none, n);
        lemma_null_names(s, tables, nulls, classes, none, n);
        names::lemma_held_concat(strings, of_nulls, of_classes);
        if let (Ok(st), s) = emit::null_entries(s, tables, nulls, classes, none, n) {
            let start = NamedOutcome { emitted: st, strings: s, said, failed: 0 };
            let of_names = named_asked(link, tables, nulls, d, sources, start, k);
            lemma_named(link, tables, nulls, d, sources, start, k);
            names::lemma_held_concat(strings, of_nulls + of_classes, of_names);
            let o = emit::named_upto(
                link,
                tables,
                nulls,
                d.defs,
                d.names,
                sources,
                start,
                d.order,
                k,
            );
            let owned = OwnedOutcome {
                owned: Seq::empty(),
                strings: o.strings,
                said: o.said,
                failed: 0,
            };
            lemma_owned(link, nulls, d, tables, n as u32, owned, k);
            names::lemma_held_concat(
                strings,
                of_nulls + of_classes + of_names,
                owned_asked(link, nulls, d, tables, n as u32, owned, k),
            );
        }
    }
}

} // verus!
