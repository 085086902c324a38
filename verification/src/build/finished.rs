//! The finished table of names and the entries of a binary: what an entry holds is right
//! for the table as it is in the end.

use vstd::prelude::*;

use crate::build::asked;
use crate::build::bin;
use crate::build::bin::{NamedView, OwnedOutcome, OwnedView};
use crate::build::blocks;
use crate::build::blocks::{BlockView, LoweredView};
use crate::build::diagnostics::DiagnosticView;
use crate::build::emit;
use crate::build::emit::{BuiltView, Emitted, NamedOutcome, NullView, SourcesView};
use crate::build::linking;
use crate::build::linking::{LinkView, TaskView};
use crate::lower::body;
use crate::names;

verus! {

/// Whether a table has become another by holding more strings.
pub open spec fn becomes(a: Seq<Seq<char>>, b: Seq<Seq<char>>) -> bool {
    exists|more: Seq<Seq<char>>| b == #[trigger] names::held_all(a, more)
}

proof fn lemma_becomes(a: Seq<Seq<char>>, b: Seq<Seq<char>>, c: Seq<Seq<char>>)
    requires
        becomes(a, b),
        becomes(b, c),
    ensures
        becomes(a, c),
{
    let u = choose|u: Seq<Seq<char>>| b == #[trigger] names::held_all(a, u);
    let v = choose|v: Seq<Seq<char>>| c == #[trigger] names::held_all(b, v);
    names::lemma_held_concat(a, u, v);
    assert(c == names::held_all(a, u + v));
}

/// A string for which there is no room is never there.
proof fn lemma_no_room(a: Seq<Seq<char>>, s: Seq<char>, more: Seq<Seq<char>>)
    requires
        !names::fits(a, s),
    ensures
        ({
            let b = names::held_all(a, more);
            &&& !names::fits(b, s)
            &&& !b.contains(s)
            &&& names::position(a, a.len() as int) <= names::position(b, b.len() as int)
        }),
    decreases more.len(),
{
    if more.len() > 0 {
        lemma_no_room(a, s, more.drop_last());
        let before = names::held_all(a, more.drop_last());
        let x = more.last();
        names::lemma_push(before, x);
        names::lemma_held_new(before, x, s);
    }
}

/// What was asked for and is there in the end was there when it had been asked for.
proof fn lemma_there(
    a: Seq<Seq<char>>,
    v: Seq<Seq<char>>,
    more: Seq<Seq<char>>,
    i: int,
)
    requires
        0 <= i < v.len(),
        names::held_all(names::held_all(a, v), more).contains(v[i]),
    ensures
        names::held_all(a, v).contains(v[i]),
{
    let s = v[i];
    let first = v.take(i);
    let rest = v.skip(i + 1);
    let p = names::held_all(a, first);
    assert(v.take(i + 1).drop_last() =~= first);
    assert(v =~= v.take(i + 1) + rest);
    names::lemma_held_concat(a, v.take(i + 1), rest);
    let q = names::held_all(a, v.take(i + 1));
    assert(q == names::held(p, s));
    if names::fits(p, s) {
        names::interned_strings_keep_their_offsets(p, s, s);
        names::lemma_held_keeps(q, rest, s);
    } else {
        names::lemma_held_concat(q, rest, more);
        lemma_no_room(q, s, rest + more);
    }
}

// ── Named definitions ────────────────────────────────────────────────────────

/// Whether an entry is what a definition is in a table: its class, its name, and what its
/// statements and those of its ancestors are lowered to.
pub open spec fn entry_stands(
    link: LinkView,
    strings: Seq<Seq<char>>,
    nulls: Seq<NullView>,
    d: NamedView,
    name: Seq<char>,
    e: BuiltView,
) -> bool {
    let i = d.names[name];
    let class = d.defs[i as int].def_type;
    &&& d.names.contains_key(name)
    &&& names::found_offset(strings, class) == Some(e.def_name_off)
    &&& names::found_offset(strings, name) == Some(e.file_name_off)
    &&& match body::flattened(d.defs, d.names, i) {
        Ok(body) => linking::lowered_against(
            link,
            strings,
            TaskView { class, base: emit::null_of(nulls, class, 0), body },
        ) matches Ok(b) && b == e.body,
        Err(_) => false,
    }
}

proof fn lemma_step(
    link: LinkView,
    tables: Seq<Seq<char>>,
    nulls: Seq<NullView>,
    d: NamedView,
    sources: SourcesView,
    o: NamedOutcome,
    name: Seq<char>,
    more: Seq<Seq<char>>,
)
    requires
        ({
            let next = emit::named_step(
                link,
                tables,
                nulls,
                d.defs,
                d.names,
                sources,
                o,
                name,
            );
            let own = asked::name_asked(link, o.strings, nulls, d, name);
            &&& next.failed == o.failed
            &&& forall|i: int|
                0 <= i < own.len() ==> names::held_all(next.strings, more).contains(
                    #[trigger] own[i],
                )
        }),
    ensures
        ({
            let next = emit::named_step(
                link,
                tables,
                nulls,
                d.defs,
                d.names,
                sources,
                o,
                name,
            );
            &&& next.emitted.entries.len() == o.emitted.entries.len() + 1
            &&& next.emitted.entries.drop_last() == o.emitted.entries
            &&& entry_stands(
                link,
                names::held_all(next.strings, more),
                nulls,
                d,
                name,
                next.emitted.entries.last(),
            )
        }),
{
    let next = emit::named_step(link, tables, nulls, d.defs, d.names, sources, o, name);
    let own = asked::name_asked(link, o.strings, nulls, d, name);
    let i = d.names[name];
    let class = d.defs[i as int].def_type;
    let pair = seq![class, name];
    let s = names::held_all(o.strings, pair);
    asked::lemma_two(o.strings, class, name);
    assert(s == names::held(names::held(o.strings, class), name));
    let stmts = body::flattened(d.defs, d.names, i)->Ok_0;
    let t = TaskView { class, base: emit::null_of(nulls, class, 0), body: stmts };
    let wanted = linking::asked(link, s, t);
    assert(own == pair + wanted);
    assert(linking::lowering(link, s, t).1 == names::held_all(s, wanted)) by {
        reveal(linking::lowering);
    }
    assert(next.strings == names::held_all(s, wanted));
    assert forall|j: int| 0 <= j < wanted.len() implies names::held_all(s, wanted).contains(
        #[trigger] wanted[j],
    ) by {
        assert(own[2 + j] == wanted[j]);
        lemma_there(s, wanted, more, j);
    }
    linking::a_lowered_definition_stays(link, s, t, more);
    names::lemma_held_concat(s, wanted, more);
    names::lemma_held_keeps(s, wanted + more, class);
    names::lemma_held_keeps(s, wanted + more, name);
    assert(next.emitted.entries.drop_last() =~= o.emitted.entries);
}

proof fn lemma_named(
    link: LinkView,
    tables: Seq<Seq<char>>,
    nulls: Seq<NullView>,
    d: NamedView,
    sources: SourcesView,
    o: NamedOutcome,
    k: int,
    end: Seq<Seq<char>>,
)
    requires
        0 <= k <= d.order.len(),
        ({
            let st = emit::named_upto(
                link,
                tables,
                nulls,
                d.defs,
                d.names,
                sources,
                o,
                d.order,
                k,
            );
            let own = asked::named_asked(link, tables, nulls, d, sources, o, k);
            &&& st.failed == o.failed
            &&& becomes(st.strings, end)
            &&& forall|i: int| 0 <= i < own.len() ==> end.contains(#[trigger] own[i])
        }),
    ensures
        ({
            let st = emit::named_upto(
                link,
                tables,
                nulls,
                d.defs,
                d.names,
                sources,
                o,
                d.order,
                k,
            );
            let n = o.emitted.entries.len();
            &&& st.emitted.entries.len() == n + k
            &&& forall|j: int|
                0 <= j < k ==> entry_stands(
                    link,
                    end,
                    nulls,
                    d,
                    #[trigger] d.order[j],
                    st.emitted.entries[n + j],
                )
        }),
    decreases k,
{
    if k > 0 {
        let before = emit::named_upto(
            link,
            tables,
            nulls,
            d.defs,
            d.names,
            sources,
            o,
            d.order,
            k - 1,
        );
        let st = emit::named_upto(link, tables, nulls, d.defs, d.names, sources, o, d.order, k);
        let name = d.order[k - 1];
        lemma_failed(link, tables, nulls, d, sources, o, k - 1);
        let earlier = asked::named_asked(link, tables, nulls, d, sources, o, k - 1);
        let own = asked::name_asked(link, before.strings, nulls, d, name);
        let all = asked::named_asked(link, tables, nulls, d, sources, o, k);
        assert(all == earlier + own);
        assert forall|i: int| 0 <= i < earlier.len() implies end.contains(
            #[trigger] earlier[i],
        ) by {
            assert(all[i] == earlier[i]);
        }
        let more = choose|more: Seq<Seq<char>>| end == #[trigger] names::held_all(
            st.strings,
            more,
        );
        assert forall|i: int| 0 <= i < own.len() implies names::held_all(
            st.strings,
            more,
        ).contains(#[trigger] own[i]) by {
            assert(all[earlier.len() + i] == own[i]);
        }
        asked::lemma_name(link, tables, nulls, d, sources, before, name);
        assert(becomes(before.strings, st.strings));
        lemma_becomes(before.strings, st.strings, end);
        lemma_step(link, tables, nulls, d, sources, before, name, more);
        lemma_named(link, tables, nulls, d, sources, o, k - 1, end);
        let n = o.emitted.entries.len();
        assert forall|j: int| 0 <= j < k implies entry_stands(
            link,
            end,
            nulls,
            d,
            #[trigger] d.order[j],
            st.emitted.entries[n + j],
        ) by {
            if j < k - 1 {
                assert(st.emitted.entries.drop_last()[n + j] == before.emitted.entries[n + j]);
            }
        }
    }
}

proof fn lemma_failed(
    link: LinkView,
    tables: Seq<Seq<char>>,
    nulls: Seq<NullView>,
    d: NamedView,
    sources: SourcesView,
    o: NamedOutcome,
    k: int,
)
    ensures
        emit::named_upto(
            link,
            tables,
            nulls,
            d.defs,
            d.names,
            sources,
            o,
            d.order,
            k,
        ).failed >= o.failed,
    decreases k,
{
    if 0 < k <= d.order.len() {
        lemma_failed(link, tables, nulls, d, sources, o, k - 1);
    }
}

/// In a binary that compiles, the entry of every named definition is what the definition is
/// in the finished table: it has the offsets of its class and of its name there, and its
/// body is what it is lowered to against that table. There was room for the strings that the
/// binary asked for.
pub proof fn entries_stand_in_the_finished_table(
    link: LinkView,
    strings: Seq<Seq<char>>,
    classes: Seq<Seq<char>>,
    d: NamedView,
    tables: Seq<Seq<char>>,
    sources: SourcesView,
    said: Seq<DiagnosticView>,
    k: int,
)
    requires
        0 <= k < d.order.len(),
        ({
            let end = bin::bin_outcome(link, strings, classes, d, tables, sources, said);
            let all = asked::bin_asked(link, strings, classes, d, tables, sources, said);
            &&& end.result is Ok
            &&& forall|i: int| 0 <= i < all.len() ==> end.strings.contains(#[trigger] all[i])
        }),
    ensures
        ({
            let end = bin::bin_outcome(link, strings, classes, d, tables, sources, said);
            let nulls = emit::nulls_upto(link, strings, classes, classes.len() as int).0->Ok_0;
            let entries = end.result->Ok_0.0.entries;
            &&& entries.len() == classes.len() + d.order.len()
            &&& entry_stands(
                link,
                end.strings,
                nulls,
                d,
                d.order[k],
                entries[classes.len() + k],
            )
        }),
{
    let none = Emitted { entries: Seq::empty(), counters: Map::empty() };
    let n = classes.len() as int;
    let m = d.order.len() as int;
    let end = bin::bin_outcome(link, strings, classes, d, tables, sources, said);
    let all = asked::bin_asked(link, strings, classes, d, tables, sources, said);
    let (nulls, s) = (
        emit::nulls_upto(link, strings, classes, n).0->Ok_0,
        emit::nulls_upto(link, strings, classes, n).1,
    );
    let (st, s2) = (
        emit::null_entries(s, tables, nulls, classes, none, n).0->Ok_0,
        emit::null_entries(s, tables, nulls, classes, none, n).1,
    );
    let start = NamedOutcome { emitted: st, strings: s2, said, failed: 0 };
    let o = emit::named_upto(link, tables, nulls, d.defs, d.names, sources, start, d.order, m);
    let owned = OwnedOutcome { owned: Seq::empty(), strings: o.strings, said: o.said, failed: 0 };
    let of_nulls = asked::nulls_asked(link, strings, classes, n);
    let of_classes = asked::null_names(s, tables, nulls, classes, none, n);
    let of_names = asked::named_asked(link, tables, nulls, d, sources, start, m);
    let of_blocks = asked::owned_asked(link, nulls, d, tables, n as u32, owned, m);
    assert(all == of_nulls + of_classes + of_names + of_blocks);
    asked::lemma_owned(link, nulls, d, tables, n as u32, owned, m);
    assert(end.strings == names::held_all(o.strings, of_blocks));
    assert(becomes(o.strings, end.strings));
    assert forall|i: int| 0 <= i < of_names.len() implies end.strings.contains(
        #[trigger] of_names[i],
    ) by {
        assert(all[of_nulls.len() + of_classes.len() + i] == of_names[i]);
    }
    bin::lemma_null_entries(s, tables, nulls, classes, none, n);
    lemma_named(link, tables, nulls, d, sources, start, m, end.strings);
    assert(entry_stands(link, end.strings, nulls, d, d.order[k], o.emitted.entries[n + k]));
}

// ── Null definitions ─────────────────────────────────────────────────────────

/// Whether a null definition is what its class is lowered to without statements.
pub open spec fn null_stands(link: LinkView, strings: Seq<Seq<char>>, x: NullView) -> bool {
    linking::lowered_against(link, strings, emit::null_task(x.class)) matches Ok(b) && b == x.body
}

proof fn lemma_lowered(
    link: LinkView,
    s: Seq<Seq<char>>,
    t: TaskView,
    end: Seq<Seq<char>>,
)
    requires
        linking::lowering(link, s, t).0 is Ok,
        becomes(linking::lowering(link, s, t).1, end),
        forall|i: int|
            0 <= i < linking::asked(link, s, t).len() ==> end.contains(
                #[trigger] linking::asked(link, s, t)[i],
            ),
    ensures
        linking::lowered_against(link, end, t) == linking::lowering(link, s, t).0,
{
    let wanted = linking::asked(link, s, t);
    let all = linking::lowering(link, s, t).1;
    assert(all == names::held_all(s, wanted)) by {
        reveal(linking::lowering);
    }
    let more = choose|more: Seq<Seq<char>>| end == #[trigger] names::held_all(all, more);
    assert forall|j: int| 0 <= j < wanted.len() implies names::held_all(s, wanted).contains(
        #[trigger] wanted[j],
    ) by {
        lemma_there(s, wanted, more, j);
    }
    linking::a_lowered_definition_stays(link, s, t, more);
}

proof fn lemma_nulls(
    link: LinkView,
    strings: Seq<Seq<char>>,
    classes: Seq<Seq<char>>,
    k: int,
    end: Seq<Seq<char>>,
)
    requires
        0 <= k <= classes.len(),
        emit::nulls_upto(link, strings, classes, k).0 is Ok,
        becomes(emit::nulls_upto(link, strings, classes, k).1, end),
        forall|i: int|
            0 <= i < asked::nulls_asked(link, strings, classes, k).len() ==> end.contains(
                #[trigger] asked::nulls_asked(link, strings, classes, k)[i],
            ),
    ensures
        ({
            let nulls = emit::nulls_upto(link, strings, classes, k).0->Ok_0;
            forall|j: int| 0 <= j < nulls.len() ==> null_stands(link, end, #[trigger] nulls[j])
        }),
    decreases k,
{
    if k > 0 {
        let class = classes[k - 1];
        let before = emit::nulls_upto(link, strings, classes, k - 1);
        let nulls = before.0->Ok_0;
        let s = before.1;
        let earlier = asked::nulls_asked(link, strings, classes, k - 1);
        let all = asked::nulls_asked(link, strings, classes, k);
        assert forall|i: int| 0 <= i < earlier.len() implies end.contains(
            #[trigger] earlier[i],
        ) by {
            assert(all[i] == earlier[i]);
        }
        if emit::null_of(nulls, class, 0) is None {
            let t = emit::null_task(class);
            let wanted = linking::asked(link, s, t);
            assert(all == earlier + wanted);
            assert forall|i: int| 0 <= i < wanted.len() implies end.contains(
                #[trigger] wanted[i],
            ) by {
                assert(all[earlier.len() + i] == wanted[i]);
            }
            assert(linking::lowering(link, s, t).1 == names::held_all(s, wanted)) by {
                reveal(linking::lowering);
            }
            assert(becomes(s, linking::lowering(link, s, t).1));
            lemma_becomes(s, linking::lowering(link, s, t).1, end);
            lemma_lowered(link, s, t, end);
            lemma_nulls(link, strings, classes, k - 1, end);
            let now = emit::nulls_upto(link, strings, classes, k).0->Ok_0;
            assert forall|j: int| 0 <= j < now.len() implies null_stands(
                link,
                end,
                #[trigger] now[j],
            ) by {
                if j < nulls.len() {
                    assert(now[j] == nulls[j]);
                }
            }
        } else {
            lemma_nulls(link, strings, classes, k - 1, end);
        }
    }
}

// ── Blocks ───────────────────────────────────────────────────────────────────

/// Whether a lowered block is what the block is in a table, with the offset of its tag.
pub open spec fn block_stands(
    link: LinkView,
    strings: Seq<Seq<char>>,
    nulls: Seq<NullView>,
    b: BlockView,
    x: LoweredView,
) -> bool {
    &&& x.crc == b.crc
    &&& x.tag == b.tag
    &&& names::found_offset(strings, b.tag) == Some(x.def_name_off)
    &&& linking::lowered_against(
        link,
        strings,
        TaskView { class: b.tag, base: emit::null_of(nulls, b.tag, 0), body: b.body },
    ) matches Ok(body) && body == x.body
}

proof fn lemma_block(
    link: LinkView,
    s: Seq<Seq<char>>,
    nulls: Seq<NullView>,
    b: BlockView,
    end: Seq<Seq<char>>,
)
    requires
        blocks::block_body(link, s, nulls, b).0 is Ok,
        becomes(blocks::block_body(link, s, nulls, b).1, end),
        forall|i: int|
            0 <= i < asked::block_asked(link, s, nulls, b).len() ==> end.contains(
                #[trigger] asked::block_asked(link, s, nulls, b)[i],
            ),
    ensures
        ({
            let (body, def_name_off) = blocks::block_body(link, s, nulls, b).0->Ok_0;
            block_stands(
                link,
                end,
                nulls,
                b,
                LoweredView { crc: b.crc, tag: b.tag, def_name_off, body },
            )
        }),
{
    let t = TaskView { class: b.tag, base: emit::null_of(nulls, b.tag, 0), body: b.body };
    let wanted = linking::asked(link, s, t);
    let own = asked::block_asked(link, s, nulls, b);
    let mid = linking::lowering(link, s, t).1;
    let with_tag = blocks::block_body(link, s, nulls, b).1;
    assert(own == wanted + seq![b.tag]);
    assert forall|i: int| 0 <= i < wanted.len() implies end.contains(#[trigger] wanted[i]) by {
        assert(own[i] == wanted[i]);
    }
    asked::lemma_two(mid, b.tag, b.tag);
    assert(becomes(mid, with_tag)) by {
        assert(with_tag == names::held_all(mid, seq![b.tag]));
    }
    lemma_becomes(mid, with_tag, end);
    lemma_lowered(link, s, t, end);
    let more = choose|more: Seq<Seq<char>>| end == #[trigger] names::held_all(with_tag, more);
    names::lemma_held_keeps(with_tag, more, b.tag);
}

proof fn lemma_blocks(
    link: LinkView,
    s: Seq<Seq<char>>,
    nulls: Seq<NullView>,
    name: Seq<char>,
    v: Seq<BlockView>,
    said: Seq<DiagnosticView>,
    k: int,
    end: Seq<Seq<char>>,
)
    requires
        0 <= k <= v.len(),
        ({
            let o = blocks::lowered_blocks(link, s, nulls, name, v, said, k);
            let own = asked::blocks_asked(link, s, nulls, name, v, said, k);
            &&& o.failed == 0
            &&& becomes(o.strings, end)
            &&& forall|i: int| 0 <= i < own.len() ==> end.contains(#[trigger] own[i])
        }),
    ensures
        ({
            let o = blocks::lowered_blocks(link, s, nulls, name, v, said, k);
            &&& o.lowered.len() == k
            &&& forall|j: int|
                0 <= j < k ==> block_stands(link, end, nulls, v[j], #[trigger] o.lowered[j])
        }),
    decreases k,
{
    if k > 0 {
        let before = blocks::lowered_blocks(link, s, nulls, name, v, said, k - 1);
        let o = blocks::lowered_blocks(link, s, nulls, name, v, said, k);
        let b = v[k - 1];
        let earlier = asked::blocks_asked(link, s, nulls, name, v, said, k - 1);
        let own = asked::block_asked(link, before.strings, nulls, b);
        let all = asked::blocks_asked(link, s, nulls, name, v, said, k);
        assert(all == earlier + own);
        assert forall|i: int| 0 <= i < earlier.len() implies end.contains(
            #[trigger] earlier[i],
        ) by {
            assert(all[i] == earlier[i]);
        }
        assert forall|i: int| 0 <= i < own.len() implies end.contains(#[trigger] own[i]) by {
            assert(all[earlier.len() + i] == own[i]);
        }
        asked::lemma_block(link, before.strings, nulls, b);
        assert(becomes(before.strings, o.strings));
        lemma_becomes(before.strings, o.strings, end);
        lemma_block(link, before.strings, nulls, b, end);
        lemma_blocks(link, s, nulls, name, v, said, k - 1, end);
        assert forall|j: int| 0 <= j < k implies block_stands(
            link,
            end,
            nulls,
            v[j],
            #[trigger] o.lowered[j],
        ) by {
            if j < k - 1 {
                assert(o.lowered[j] == before.lowered[j]);
            }
        }
    }
}

/// Whether every lowered block of an owner is what the block is in a table. The owner stands
/// behind `first` others.
pub open spec fn owner_stands(
    link: LinkView,
    strings: Seq<Seq<char>>,
    nulls: Seq<NullView>,
    d: NamedView,
    tables: Seq<Seq<char>>,
    first: u32,
    x: OwnedView,
) -> bool {
    let v = bin::blocks_of(d, tables, d.order[x.owner - first]);
    &&& first <= x.owner < first + d.order.len()
    &&& x.blocks.len() == v.len()
    &&& forall|j: int|
        0 <= j < v.len() ==> block_stands(link, strings, nulls, v[j], #[trigger] x.blocks[j])
}

proof fn lemma_owners(
    link: LinkView,
    nulls: Seq<NullView>,
    d: NamedView,
    tables: Seq<Seq<char>>,
    first: u32,
    start: OwnedOutcome,
    k: int,
    end: Seq<Seq<char>>,
)
    requires
        0 <= k <= d.order.len(),
        first + d.order.len() <= u32::MAX,
        start.owned.len() == 0,
        start.failed == 0,
        ({
            let o = bin::owned_upto(link, nulls, d, tables, first, start, k);
            let own = asked::owned_asked(link, nulls, d, tables, first, start, k);
            &&& o.failed == 0
            &&& becomes(o.strings, end)
            &&& forall|i: int| 0 <= i < own.len() ==> end.contains(#[trigger] own[i])
        }),
    ensures
        ({
            let o = bin::owned_upto(link, nulls, d, tables, first, start, k);
            forall|j: int|
                0 <= j < o.owned.len() ==> owner_stands(
                    link,
                    end,
                    nulls,
                    d,
                    tables,
                    first,
                    #[trigger] o.owned[j],
                )
        }),
    decreases k,
{
    if k > 0 {
        let before = bin::owned_upto(link, nulls, d, tables, first, start, k - 1);
        let o = bin::owned_upto(link, nulls, d, tables, first, start, k);
        let name = d.order[k - 1];
        let v = bin::blocks_of(d, tables, name);
        let n = v.len() as int;
        let earlier = asked::owned_asked(link, nulls, d, tables, first, start, k - 1);
        let own = asked::blocks_asked(link, before.strings, nulls, name, v, before.said, n);
        let all = asked::owned_asked(link, nulls, d, tables, first, start, k);
        assert(all == earlier + own);
        assert forall|i: int| 0 <= i < earlier.len() implies end.contains(
            #[trigger] earlier[i],
        ) by {
            assert(all[i] == earlier[i]);
        }
        if n == 0 {
            lemma_owners(link, nulls, d, tables, first, start, k - 1, end);
        } else {
            assert forall|i: int| 0 <= i < own.len() implies end.contains(#[trigger] own[i]) by {
                assert(all[earlier.len() + i] == own[i]);
            }
            asked::lemma_blocks(link, before.strings, nulls, name, v, before.said, n);
            assert(becomes(before.strings, o.strings));
            lemma_becomes(before.strings, o.strings, end);
            lemma_blocks(link, before.strings, nulls, name, v, before.said, n, end);
            lemma_owners(link, nulls, d, tables, first, start, k - 1, end);
            assert forall|j: int| 0 <= j < o.owned.len() implies owner_stands(
                link,
                end,
                nulls,
                d,
                tables,
                first,
                #[trigger] o.owned[j],
            ) by {
                if j < before.owned.len() {
                    assert(o.owned[j] == before.owned[j]);
                } else {
                    assert(o.owned[j].owner == first + (k - 1));
                }
            }
        }
    }
}

/// In a binary that compiles, every null definition and every block is what it is in the
/// finished table. There was room for the strings that the binary asked for.
pub proof fn null_definitions_and_blocks_stand_in_the_finished_table(
    link: LinkView,
    strings: Seq<Seq<char>>,
    classes: Seq<Seq<char>>,
    d: NamedView,
    tables: Seq<Seq<char>>,
    sources: SourcesView,
    said: Seq<DiagnosticView>,
)
    requires
        classes.len() + d.order.len() <= u32::MAX,
        ({
            let end = bin::bin_outcome(link, strings, classes, d, tables, sources, said);
            let all = asked::bin_asked(link, strings, classes, d, tables, sources, said);
            &&& end.result is Ok
            &&& forall|i: int| 0 <= i < all.len() ==> end.strings.contains(#[trigger] all[i])
        }),
    ensures
        ({
            let end = bin::bin_outcome(link, strings, classes, d, tables, sources, said);
            let nulls = emit::nulls_upto(link, strings, classes, classes.len() as int).0->Ok_0;
            let owned = end.result->Ok_0.1;
            &&& forall|j: int|
                0 <= j < nulls.len() ==> null_stands(link, end.strings, #[trigger] nulls[j])
            &&& forall|j: int|
                0 <= j < owned.len() ==> owner_stands(
                    link,
                    end.strings,
                    nulls,
                    d,
                    tables,
                    classes.len() as u32,
                    #[trigger] owned[j],
                )
        }),
{
    let none = Emitted { entries: Seq::empty(), counters: Map::empty() };
    let n = classes.len() as int;
    let m = d.order.len() as int;
    let end = bin::bin_outcome(link, strings, classes, d, tables, sources, said);
    let all = asked::bin_asked(link, strings, classes, d, tables, sources, said);
    let (nulls, s) = (
        emit::nulls_upto(link, strings, classes, n).0->Ok_0,
        emit::nulls_upto(link, strings, classes, n).1,
    );
    let (st, s2) = (
        emit::null_entries(s, tables, nulls, classes, none, n).0->Ok_0,
        emit::null_entries(s, tables, nulls, classes, none, n).1,
    );
    let start = NamedOutcome { emitted: st, strings: s2, said, failed: 0 };
    let o = emit::named_upto(link, tables, nulls, d.defs, d.names, sources, start, d.order, m);
    let owned = OwnedOutcome { owned: Seq::empty(), strings: o.strings, said: o.said, failed: 0 };
    let of_nulls = asked::nulls_asked(link, strings, classes, n);
    let of_classes = asked::null_names(s, tables, nulls, classes, none, n);
    let of_names = asked::named_asked(link, tables, nulls, d, sources, start, m);
    let of_blocks = asked::owned_asked(link, nulls, d, tables, n as u32, owned, m);
    assert(all == of_nulls + of_classes + of_names + of_blocks);
    asked::lemma_null_names(s, tables, nulls, classes, none, n);
    asked::lemma_named(link, tables, nulls, d, sources, start, m);
    asked::lemma_owned(link, nulls, d, tables, n as u32, owned, m);
    assert(becomes(s, s2));
    assert(becomes(s2, o.strings));
    assert(becomes(o.strings, end.strings));
    lemma_becomes(s, s2, o.strings);
    lemma_becomes(s, o.strings, end.strings);
    assert forall|i: int| 0 <= i < of_nulls.len() implies end.strings.contains(
        #[trigger] of_nulls[i],
    ) by {
        assert(all[i] == of_nulls[i]);
    }
    lemma_nulls(link, strings, classes, n, end.strings);
    assert forall|i: int| 0 <= i < of_blocks.len() implies end.strings.contains(
        #[trigger] of_blocks[i],
    ) by {
        assert(all[of_nulls.len() + of_classes.len() + of_names.len() + i] == of_blocks[i]);
    }
    assert(becomes(end.strings, end.strings)) by {
        assert(end.strings == names::held_all(end.strings, Seq::<Seq<char>>::empty()));
    }
    lemma_owners(link, nulls, d, tables, n as u32, owned, m, end.strings);
}

} // verus!
