//! What a definition has from those that it specializes.

use vstd::prelude::*;

use crate::build::bin;
use crate::build::bin::{NamedView, OwnedOutcome, OwnedView};
use crate::build::blocks;
use crate::build::blocks::BlockView;
use crate::build::diagnostics::DiagnosticView;
use crate::build::emit;
use crate::build::emit::{Emitted, NamedOutcome, NullView, SourcesView};
use crate::build::linking::LinkView;
use crate::crc32;
use crate::lower::body;
use crate::lower::env::LowerErrorView;
use crate::text::ast::{DefinitionView, StatementView};
use crate::text::base::Spanned;

verus! {

// ── Lines of ancestors ───────────────────────────────────────────────────────

/// Whether `line` is a definition, what it specializes, what that specializes, and so on up
/// to one that specializes nothing.
pub open spec fn is_line(
    defs: Seq<DefinitionView>,
    names: Map<Seq<char>, usize>,
    line: Seq<usize>,
) -> bool {
    &&& line.len() > 0
    &&& line.no_duplicates()
    &&& forall|j: int| 0 <= j < line.len() ==> (#[trigger] line[j]) < defs.len()
    &&& forall|j: int|
        0 <= j < line.len() - 1 ==> (defs[#[trigger] line[j] as int].specializes matches Some(p)
            && names.contains_key(p) && names[p] == line[j + 1])
    &&& defs[line.last() as int].specializes is None
}

proof fn lemma_line(
    defs: Seq<DefinitionView>,
    names: Map<Seq<char>, usize>,
    line: Seq<usize>,
    k: int,
)
    requires
        is_line(defs, names, line),
        body::names_defs(names, defs.len() as int),
        1 <= k <= line.len(),
    ensures
        body::ancestry(defs, names, line.take(k)) == Ok::<Seq<usize>, LowerErrorView>(line),
    decreases line.len() - k,
{
    let chain = line.take(k);
    assert(chain.last() == line[k - 1]);
    if k == line.len() {
        assert(chain =~= line);
    } else {
        lemma_line(defs, names, line, k + 1);
        assert(line[k - 1] < defs.len());
        let p = defs[line[k - 1] as int].specializes->0;
        assert(names[p] == line[k]);
        assert(!chain.contains(line[k]));
        assert(chain.push(line[k]) =~= line.take(k + 1));
    }
}

proof fn lemma_ancestry_is_line(
    defs: Seq<DefinitionView>,
    names: Map<Seq<char>, usize>,
    chain: Seq<usize>,
)
    requires
        chain.len() > 0,
        body::chain_of(chain, defs.len() as int),
        body::names_defs(names, defs.len() as int),
        forall|j: int|
            0 <= j < chain.len() - 1 ==> (defs[#[trigger] chain[j] as int].specializes matches Some(
                p,
            ) && names.contains_key(p) && names[p] == chain[j + 1]),
    ensures
        body::ancestry(defs, names, chain) matches Ok(line) ==> is_line(defs, names, line)
            && line.take(chain.len() as int) == chain && line.len() >= chain.len(),
    decreases defs.len() - chain.len(),
{
    let current = defs[chain.last() as int];
    match current.specializes {
        None => {
            assert(chain.take(chain.len() as int) =~= chain);
        },
        Some(p) => if names.contains_key(p) && !chain.contains(names[p]) {
            let next = chain.push(names[p]);
            assert(body::chain_of(next, defs.len() as int)) by {
                assert forall|i: int, j: int|
                    0 <= i < next.len() && 0 <= j < next.len() && i != j implies next[i]
                    != next[j] by {
                    if i == chain.len() {
                        assert(chain.contains(chain[j]));
                    } else if j == chain.len() {
                        assert(chain.contains(chain[i]));
                    }
                }
            }
            assert forall|j: int| 0 <= j < next.len() - 1 implies (defs[#[trigger] next[j] as int]
                .specializes matches Some(q) && names.contains_key(q) && names[q] == next[j + 1]) by {
                assert(next[j] == chain[j]);
                if j < chain.len() - 1 {
                    assert(next[j + 1] == chain[j + 1]);
                }
            }
            lemma_len(next, defs.len() as int);
            lemma_ancestry_is_line(defs, names, next);
            if let Ok(line) = body::ancestry(defs, names, next) {
                assert(line.take(chain.len() as int) =~= line.take(next.len() as int).take(
                    chain.len() as int,
                ));
                assert(next.take(chain.len() as int) =~= chain);
            }
        },
    }
}

proof fn lemma_len(chain: Seq<usize>, n: int)
    requires
        body::chain_of(chain, n),
        n >= 0,
    ensures
        chain.len() <= n,
{
    let all = chain.to_set();
    chain.unique_seq_to_set();
    let numbers = all.map(|x: usize| x as int);
    vstd::set_lib::lemma_map_size(all, numbers, |x: usize| x as int);
    vstd::set_lib::lemma_int_range(0, n);
    vstd::set_lib::lemma_len_subset(numbers, vstd::set_lib::set_int_range(0, n));
}

proof fn lemma_flattened_line(
    defs: Seq<DefinitionView>,
    names: Map<Seq<char>, usize>,
    i: usize,
) -> (line: Seq<usize>)
    requires
        i < defs.len(),
        body::names_defs(names, defs.len() as int),
        body::flattened(defs, names, i) is Ok,
    ensures
        is_line(defs, names, line),
        line[0] == i,
        body::flattened(defs, names, i) == Ok::<Seq<Spanned<StatementView>>, LowerErrorView>(
            body::chained(defs, line),
        ),
{
    let chain = seq![i];
    assert(body::chain_of(chain, defs.len() as int));
    lemma_ancestry_is_line(defs, names, chain);
    let line = body::ancestry(defs, names, chain)->Ok_0;
    assert(line.take(1)[0] == chain[0]);
    line
}

/// The statements of a definition that specializes nothing are its own.
pub proof fn a_definition_without_a_parent_has_its_own_statements(
    defs: Seq<DefinitionView>,
    names: Map<Seq<char>, usize>,
    i: usize,
)
    requires
        i < defs.len(),
        body::names_defs(names, defs.len() as int),
        defs[i as int].specializes is None,
    ensures
        body::flattened(defs, names, i) == Ok::<Seq<Spanned<StatementView>>, LowerErrorView>(
            defs[i as int].body,
        ),
{
    let line = seq![i];
    lemma_line(defs, names, line, 1);
    assert(line.take(1) =~= line);
    body::own_statements_come_last(defs, line);
    assert(line.drop_first() =~= Seq::<usize>::empty());
    assert(body::chained(defs, line) =~= defs[i as int].body);
}

/// A child has the statements of its parent, and its own behind them.
pub proof fn a_child_adds_to_its_parent(
    defs: Seq<DefinitionView>,
    names: Map<Seq<char>, usize>,
    child: usize,
    parent: usize,
)
    requires
        child < defs.len(),
        body::names_defs(names, defs.len() as int),
        defs[child as int].specializes matches Some(p) && names.contains_key(p) && names[p]
            == parent,
        body::flattened(defs, names, child) is Ok,
    ensures
        body::flattened(defs, names, parent) is Ok,
        body::flattened(defs, names, child)->Ok_0 == body::flattened(defs, names, parent)->Ok_0
            + defs[child as int].body,
{
    let line = lemma_flattened_line(defs, names, child);
    assert(line.len() > 1);
    let up = line.drop_first();
    assert(defs[line[0] as int].specializes is Some);
    assert(up[0] == parent);
    assert(is_line(defs, names, up)) by {
        assert forall|j: int| 0 <= j < up.len() implies (#[trigger] up[j]) < defs.len() by {
            assert(up[j] == line[j + 1]);
        }
        assert forall|j: int| 0 <= j < up.len() - 1 implies (defs[#[trigger] up[j] as int]
            .specializes matches Some(q) && names.contains_key(q) && names[q] == up[j + 1]) by {
            assert(up[j] == line[j + 1]);
            assert(up[j + 1] == line[j + 2]);
        }
        assert(up.last() == line.last());
        assert(up.no_duplicates());
    }
    lemma_line(defs, names, up, 1);
    assert(up.take(1) =~= seq![parent]);
    body::own_statements_come_last(defs, line);
}

/// A definition resolves exactly where following its parents comes to an end.
pub proof fn a_definition_resolves_where_its_line_ends(
    defs: Seq<DefinitionView>,
    names: Map<Seq<char>, usize>,
    i: usize,
)
    requires
        i < defs.len(),
        body::names_defs(names, defs.len() as int),
    ensures
        body::flattened(defs, names, i) is Ok <==> exists|line: Seq<usize>|
            line.len() > 0 && line[0] == i && #[trigger] is_line(defs, names, line),
        (defs[i as int].specializes matches Some(p) && !names.contains_key(p))
            ==> body::flattened(defs, names, i) == Err::<
            Seq<Spanned<StatementView>>,
            LowerErrorView,
        >(
            (LowerErrorView::MissingParent {
                def: defs[i as int].name,
                parent: defs[i as int].specializes->0,
                span: defs[i as int].specializes_span,
            }),
        ),
        (defs[i as int].specializes matches Some(p) && names.contains_key(p) && names[p] == i)
            ==> body::flattened(defs, names, i) == Err::<
            Seq<Spanned<StatementView>>,
            LowerErrorView,
        >(
            LowerErrorView::SpecializationCycle(
                defs[i as int].name,
                defs[i as int].specializes_span,
            ),
        ),
{
    let chain = seq![i];
    assert(body::chain_of(chain, defs.len() as int));
    assert(chain.last() == i && chain[0] == i);
    if body::flattened(defs, names, i) is Ok {
        let line = lemma_flattened_line(defs, names, i);
        assert(is_line(defs, names, line));
    }
    assert forall|line: Seq<usize>|
        line.len() > 0 && line[0] == i && #[trigger] is_line(
            defs,
            names,
            line,
        ) implies body::flattened(defs, names, i) is Ok by {
        lemma_line(defs, names, line, 1);
        assert(line.take(1) =~= seq![i]);
    }
    assert(chain.contains(i)) by {
        assert(chain[0] == i);
    }
}

// ── Blocks ───────────────────────────────────────────────────────────────────

/// Whether a statement is a block whose tag has the given checksum.
pub open spec fn is_block(s: StatementView, crc: u32) -> bool {
    s matches StatementView::TaggedBlock { tag, .. } && crc32::text_checksum(tag) == crc
}

/// The statements of the blocks with the given checksum, in order.
pub open spec fn gathered(s: Seq<Spanned<StatementView>>, crc: u32) -> Seq<Spanned<StatementView>>
    decreases s.len(),
{
    if s.len() == 0 {
        Seq::empty()
    } else {
        gathered(s.drop_last(), crc) + (match s.last().value {
            StatementView::TaggedBlock { tag, body } if crc32::text_checksum(tag) == crc => body,
            _ => Seq::empty(),
        })
    }
}

proof fn lemma_place(v: Seq<BlockView>, crc: u32, k: int)
    requires
        0 <= k <= v.len(),
    ensures
        k <= blocks::block_place(v, crc, k) <= v.len(),
        forall|i: int| k <= i < blocks::block_place(v, crc, k) ==> (#[trigger] v[i]).crc < crc,
        blocks::block_place(v, crc, k) < v.len() ==> v[blocks::block_place(v, crc, k)].crc >= crc,
    decreases v.len() - k,
{
    if k < v.len() && v[k].crc < crc {
        lemma_place(v, crc, k + 1);
    }
}

/// What stands in a list of blocks that ascend by checksum.
spec fn holds(v: Seq<BlockView>, crc: u32) -> bool {
    exists|i: int| 0 <= i < v.len() && (#[trigger] v[i]).crc == crc
}

spec fn merged(v: Seq<BlockView>, s: Seq<Spanned<StatementView>>) -> bool {
    &&& forall|i: int|
        0 <= i < v.len() ==> (#[trigger] v[i]).body == gathered(s, v[i].crc)
            && crc32::text_checksum(v[i].tag) == v[i].crc
    &&& forall|crc: u32| #[trigger]
        holds(v, crc) <==> exists|k: int| 0 <= k < s.len() && is_block(#[trigger] s[k].value, crc)
}

proof fn lemma_none_gathered(s: Seq<Spanned<StatementView>>, crc: u32)
    requires
        forall|k: int| 0 <= k < s.len() ==> !is_block(#[trigger] s[k].value, crc),
    ensures
        gathered(s, crc) == Seq::<Spanned<StatementView>>::empty(),
    decreases s.len(),
{
    if s.len() > 0 {
        assert(!is_block(s[s.len() - 1].value, crc));
        lemma_none_gathered(s.drop_last(), crc);
        assert(gathered(s, crc) =~= Seq::<Spanned<StatementView>>::empty());
    }
}

proof fn lemma_merged(s: Seq<Spanned<StatementView>>, k: int)
    requires
        0 <= k <= s.len(),
    ensures
        merged(blocks::blocks_upto(s, k), s.take(k)),
    decreases k,
{
    let now = s.take(k);
    if k > 0 {
        lemma_merged(s, k - 1);
        blocks::blocks_ascend(s, k - 1);
        let v = blocks::blocks_upto(s, k - 1);
        let w = blocks::blocks_upto(s, k);
        let past = s.take(k - 1);
        assert(now.drop_last() =~= past);
        assert(now.last() == s[k - 1]);
        match s[k - 1].value {
            StatementView::TaggedBlock { tag, body } => {
                let crc = crc32::text_checksum(tag);
                let at = blocks::block_place(v, crc, 0);
                lemma_place(v, crc, 0);
                let there = at < v.len() && v[at].crc == crc;
                if !there {
                    assert(!holds(v, crc)) by {
                        if holds(v, crc) {
                            let i = choose|i: int| 0 <= i < v.len() && (#[trigger] v[i]).crc == crc;
                            if i >= at {
                                assert(v[at].crc <= v[i].crc);
                            }
                        }
                    }
                    lemma_none_gathered(past, crc);
                    assert(gathered(past, crc) + body =~= body);
                }
                assert forall|i: int| 0 <= i < w.len() implies (#[trigger] w[i]).body == gathered(
                    now,
                    w[i].crc,
                ) && crc32::text_checksum(w[i].tag) == w[i].crc by {
                    if there {
                        if i != at {
                            assert(w[i] == v[i]);
                            assert(v[i].crc != crc);
                            assert(gathered(now, w[i].crc) =~= gathered(past, w[i].crc));
                        } else {
                            assert(v[at].body == gathered(past, crc));
                        }
                    } else if i < at {
                        assert(w[i] == v[i]);
                        assert(gathered(now, w[i].crc) =~= gathered(past, w[i].crc));
                    } else if i > at {
                        assert(w[i] == v[i - 1]);
                        assert(v[at].crc <= v[i - 1].crc);
                        assert(gathered(now, w[i].crc) =~= gathered(past, w[i].crc));
                    }
                }
                assert forall|c: u32| #[trigger] holds(w, c) <==> exists|j: int|
                    0 <= j < now.len() && is_block(#[trigger] now[j].value, c) by {
                    lemma_one_more(v, w, at, there, crc, c);
                    if holds(v, c) {
                        let j = choose|j: int|
                            0 <= j < past.len() && is_block(#[trigger] past[j].value, c);
                        assert(is_block(now[j].value, c));
                    }
                    if c == crc {
                        assert(is_block(now[k - 1].value, c));
                    }
                    if exists|j: int| 0 <= j < now.len() && is_block(#[trigger] now[j].value, c) {
                        let j = choose|j: int|
                            0 <= j < now.len() && is_block(#[trigger] now[j].value, c);
                        if j < k - 1 {
                            assert(is_block(past[j].value, c));
                        }
                    }
                }
            },
            _ => {
                assert forall|i: int| 0 <= i < w.len() implies (#[trigger] w[i]).body == gathered(
                    now,
                    w[i].crc,
                ) && crc32::text_checksum(w[i].tag) == w[i].crc by {
                    assert(w[i] == v[i]);
                    assert(gathered(now, w[i].crc) =~= gathered(past, w[i].crc));
                }
                assert forall|c: u32| #[trigger] holds(w, c) <==> exists|j: int|
                    0 <= j < now.len() && is_block(#[trigger] now[j].value, c) by {
                    if holds(v, c) {
                        let j = choose|j: int|
                            0 <= j < past.len() && is_block(#[trigger] past[j].value, c);
                        assert(is_block(now[j].value, c));
                    }
                    if exists|j: int| 0 <= j < now.len() && is_block(#[trigger] now[j].value, c) {
                        let j = choose|j: int|
                            0 <= j < now.len() && is_block(#[trigger] now[j].value, c);
                        assert(j < k - 1);
                        assert(is_block(past[j].value, c));
                    }
                }
            },
        }
    } else {
        let v = blocks::blocks_upto(s, 0);
        assert forall|c: u32| #[trigger] holds(v, c) <==> exists|j: int|
            0 <= j < now.len() && is_block(#[trigger] now[j].value, c) by {
        }
    }
}

proof fn lemma_one_more(
    v: Seq<BlockView>,
    w: Seq<BlockView>,
    at: int,
    there: bool,
    crc: u32,
    c: u32,
)
    requires
        0 <= at <= v.len(),
        there ==> at < v.len() && v[at].crc == crc && w.len() == v.len() && w[at].crc == crc
            && forall|i: int| 0 <= i < v.len() && i != at ==> #[trigger] w[i] == v[i],
        !there ==> w == v.insert(at, w[at]) && w[at].crc == crc,
    ensures
        holds(w, c) <==> holds(v, c) || c == crc,
{
    if holds(v, c) {
        let i = choose|i: int| 0 <= i < v.len() && (#[trigger] v[i]).crc == c;
        if there {
            assert(w[i].crc == c) by {
                if i != at {
                    assert(w[i] == v[i]);
                }
            }
        } else if i < at {
            assert(w[i] == v[i]);
        } else {
            assert(w[i + 1] == v[i]);
        }
    }
    if c == crc {
        assert(w[at].crc == c);
    }
    if holds(w, c) {
        let i = choose|i: int| 0 <= i < w.len() && (#[trigger] w[i]).crc == c;
        if i != at {
            if there {
                assert(w[i] == v[i]);
            } else if i < at {
                assert(w[i] == v[i]);
            } else {
                assert(w[i] == v[i - 1]);
            }
        }
    }
}

/// The statements of a line of definitions, the most distant ancestor's first.
pub open spec fn line_statements(defs: Seq<DefinitionView>, line: Seq<usize>) -> Seq<
    Spanned<StatementView>,
>
    decreases line.len(),
{
    if line.len() == 0 {
        Seq::empty()
    } else {
        line_statements(defs, line.drop_first()) + defs[line[0] as int].body
    }
}

proof fn lemma_line_statements(defs: Seq<DefinitionView>, line: Seq<usize>)
    ensures
        body::chained(defs, line) == line_statements(defs, line),
    decreases line.len(),
{
    if line.len() > 0 {
        body::own_statements_come_last(defs, line);
        lemma_line_statements(defs, line.drop_first());
    }
}

proof fn lemma_some_statement(
    defs: Seq<DefinitionView>,
    line: Seq<usize>,
    crc: u32,
)
    ensures
        (exists|k: int|
            0 <= k < line_statements(defs, line).len() && is_block(
                #[trigger] line_statements(defs, line)[k].value,
                crc,
            )) <==> (exists|j: int, k: int|
            0 <= j < line.len() && 0 <= k < defs[line[j] as int].body.len() && is_block(
                #[trigger] defs[line[j] as int].body[k].value,
                crc,
            )),
    decreases line.len(),
{
    let s = line_statements(defs, line);
    if line.len() > 0 {
        let up = line.drop_first();
        let t = line_statements(defs, up);
        let own = defs[line[0] as int].body;
        lemma_some_statement(defs, up, crc);
        if exists|k: int| 0 <= k < s.len() && is_block(#[trigger] s[k].value, crc) {
            let k = choose|k: int| 0 <= k < s.len() && is_block(#[trigger] s[k].value, crc);
            if k < t.len() {
                assert(is_block(t[k].value, crc));
                let (j, m) = choose|j: int, m: int|
                    0 <= j < up.len() && 0 <= m < defs[up[j] as int].body.len() && is_block(
                        #[trigger] defs[up[j] as int].body[m].value,
                        crc,
                    );
                assert(up[j] == line[j + 1]);
                assert(is_block(defs[line[j + 1] as int].body[m].value, crc));
            } else {
                assert(is_block(defs[line[0] as int].body[k - t.len()].value, crc));
            }
        }
        if exists|j: int, k: int|
            0 <= j < line.len() && 0 <= k < defs[line[j] as int].body.len() && is_block(
                #[trigger] defs[line[j] as int].body[k].value,
                crc,
            ) {
            let (j, m) = choose|j: int, m: int|
                0 <= j < line.len() && 0 <= m < defs[line[j] as int].body.len() && is_block(
                    #[trigger] defs[line[j] as int].body[m].value,
                    crc,
                );
            if j > 0 {
                assert(up[j - 1] == line[j]);
                assert(is_block(defs[up[j - 1] as int].body[m].value, crc));
                let k = choose|k: int| 0 <= k < t.len() && is_block(#[trigger] t[k].value, crc);
                assert(s[k] == t[k]);
            } else {
                assert(s[t.len() + m] == own[m]);
                assert(is_block(s[t.len() + m].value, crc));
            }
        }
    }
}

/// A definition of a class with a table has a block for a tag exactly where it, or one that
/// it descends from, has a statement that is a block with that tag; and the statements of
/// the block are those of all these blocks, the most distant ancestor's first.
pub proof fn blocks_are_inherited(
    d: NamedView,
    tables: Seq<Seq<char>>,
    name: Seq<char>,
    line: Seq<usize>,
    crc: u32,
)
    requires
        body::names_defs(d.names, d.defs.len() as int),
        d.names.contains_key(name),
        is_line(d.defs, d.names, line),
        line[0] == d.names[name],
        tables.contains(d.defs[line[0] as int].def_type),
    ensures
        ({
            let v = bin::blocks_of(d, tables, name);
            &&& (exists|i: int| 0 <= i < v.len() && (#[trigger] v[i]).crc == crc) <==> (exists|
                j: int,
                k: int,
            |
                0 <= j < line.len() && 0 <= k < d.defs[line[j] as int].body.len() && is_block(
                    #[trigger] d.defs[line[j] as int].body[k].value,
                    crc,
                ))
            &&& forall|i: int|
                0 <= i < v.len() ==> (#[trigger] v[i]).body == gathered(
                    line_statements(d.defs, line),
                    v[i].crc,
                ) && v[i].crc == crc32::text_checksum(v[i].tag)
        }),
{
    lemma_line(d.defs, d.names, line, 1);
    assert(line.take(1) =~= seq![line[0]]);
    lemma_line_statements(d.defs, line);
    let s = line_statements(d.defs, line);
    lemma_merged(s, s.len() as int);
    assert(s.take(s.len() as int) =~= s);
    let v = bin::blocks_of(d, tables, name);
    assert(v == blocks::blocks_upto(s, s.len() as int));
    assert(holds(v, crc) <==> exists|i: int| 0 <= i < v.len() && (#[trigger] v[i]).crc == crc);
    lemma_some_statement(d.defs, line, crc);
}

proof fn lemma_no_blocks(s: Seq<Spanned<StatementView>>, t: Seq<Spanned<StatementView>>, k: int)
    requires
        0 <= k <= t.len(),
        forall|j: int| 0 <= j < t.len() ==> !((#[trigger] t[j]).value is TaggedBlock),
    ensures
        blocks::blocks_upto(s + t, s.len() + k) == blocks::blocks_upto(s, s.len() as int),
    decreases k,
{
    if k > 0 {
        lemma_no_blocks(s, t, k - 1);
        assert((s + t)[s.len() + k - 1] == t[k - 1]);
    } else {
        lemma_prefix(s, t, s.len() as int);
    }
}

proof fn lemma_prefix(s: Seq<Spanned<StatementView>>, t: Seq<Spanned<StatementView>>, k: int)
    requires
        0 <= k <= s.len(),
    ensures
        blocks::blocks_upto(s + t, k) == blocks::blocks_upto(s, k),
    decreases k,
{
    if k > 0 {
        lemma_prefix(s, t, k - 1);
        assert((s + t)[k - 1] == s[k - 1]);
    }
}

/// A child without blocks of its own has the blocks of its parent.
pub proof fn a_child_without_blocks_has_its_parents_blocks(
    d: NamedView,
    tables: Seq<Seq<char>>,
    child: Seq<char>,
    parent: Seq<char>,
)
    requires
        body::names_defs(d.names, d.defs.len() as int),
        d.names.contains_key(child),
        d.names.contains_key(parent),
        d.defs[d.names[child] as int].specializes == Some(parent),
        tables.contains(d.defs[d.names[child] as int].def_type),
        tables.contains(d.defs[d.names[parent] as int].def_type),
        body::flattened(d.defs, d.names, d.names[child]) is Ok,
        forall|k: int|
            0 <= k < d.defs[d.names[child] as int].body.len() ==> !((
            #[trigger] d.defs[d.names[child] as int].body[k]).value is TaggedBlock),
    ensures
        bin::blocks_of(d, tables, child) == bin::blocks_of(d, tables, parent),
{
    let i = d.names[child];
    a_child_adds_to_its_parent(d.defs, d.names, i, d.names[parent]);
    let s = body::flattened(d.defs, d.names, d.names[parent])->Ok_0;
    let own = d.defs[i as int].body;
    lemma_no_blocks(s, own, own.len() as int);
}

// ── Blocks of a binary ───────────────────────────────────────────────────────

proof fn lemma_all_lowered(
    link: LinkView,
    strings: Seq<Seq<char>>,
    nulls: Seq<NullView>,
    name: Seq<char>,
    v: Seq<BlockView>,
    said: Seq<DiagnosticView>,
    k: int,
)
    requires
        0 <= k <= v.len(),
        blocks::lowered_blocks(link, strings, nulls, name, v, said, k).failed == 0,
    ensures
        ({
            let l = blocks::lowered_blocks(link, strings, nulls, name, v, said, k).lowered;
            &&& l.len() == k
            &&& forall|i: int|
                0 <= i < k ==> (#[trigger] l[i]).crc == v[i].crc && l[i].tag == v[i].tag
        }),
    decreases k,
{
    if k > 0 {
        lemma_all_lowered(link, strings, nulls, name, v, said, k - 1);
        let before = blocks::lowered_blocks(link, strings, nulls, name, v, said, k - 1).lowered;
        let l = blocks::lowered_blocks(link, strings, nulls, name, v, said, k).lowered;
        assert forall|i: int| 0 <= i < k implies (#[trigger] l[i]).crc == v[i].crc && l[i].tag
            == v[i].tag by {
            if i < k - 1 {
                assert(l[i] == before[i]);
            }
        }
    }
}

/// Whether the definition numbered `owner` owns exactly the blocks in `v`.
pub open spec fn owns(owned: Seq<OwnedView>, owner: u32, v: Seq<BlockView>) -> bool {
    if v.len() == 0 {
        forall|i: int| 0 <= i < owned.len() ==> (#[trigger] owned[i]).owner != owner
    } else {
        exists|i: int|
            0 <= i < owned.len() && (#[trigger] owned[i]).owner == owner && owned[i].blocks.len()
                == v.len() && forall|j: int|
                0 <= j < v.len() ==> (#[trigger] owned[i].blocks[j]).crc == v[j].crc
                    && owned[i].blocks[j].tag == v[j].tag
    }
}

proof fn lemma_owned(
    link: LinkView,
    nulls: Seq<NullView>,
    d: NamedView,
    tables: Seq<Seq<char>>,
    first: u32,
    start: OwnedOutcome,
    k: int,
    p: int,
)
    requires
        0 <= p < k <= d.order.len(),
        first + d.order.len() <= u32::MAX,
        start.owned.len() == 0,
        bin::owned_upto(link, nulls, d, tables, first, start, k).failed == 0,
    ensures
        owns(
            bin::owned_upto(link, nulls, d, tables, first, start, k).owned,
            (first + p) as u32,
            bin::blocks_of(d, tables, d.order[p]),
        ),
    decreases k,
{
    let o = bin::owned_upto(link, nulls, d, tables, first, start, k - 1);
    let now = bin::owned_upto(link, nulls, d, tables, first, start, k);
    let name = d.order[k - 1];
    let v = bin::blocks_of(d, tables, name);
    let b = blocks::lowered_blocks(link, o.strings, nulls, name, v, o.said, v.len() as int);
    bin::owners_ascend(link, nulls, d, tables, first, start, k - 1);
    if p < k - 1 {
        lemma_owned(link, nulls, d, tables, first, start, k - 1, p);
        let w = bin::blocks_of(d, tables, d.order[p]);
        let owner = (first + p) as u32;
        if w.len() > 0 {
            let i = choose|i: int|
                0 <= i < o.owned.len() && (#[trigger] o.owned[i]).owner == owner
                    && o.owned[i].blocks.len() == w.len() && forall|j: int|
                    0 <= j < w.len() ==> (#[trigger] o.owned[i].blocks[j]).crc == w[j].crc
                        && o.owned[i].blocks[j].tag == w[j].tag;
            assert(now.owned[i] == o.owned[i]);
        } else {
            assert forall|i: int| 0 <= i < now.owned.len() implies (#[trigger] now.owned[i]).owner
                != owner by {
                if i < o.owned.len() {
                    assert(now.owned[i] == o.owned[i]);
                }
            }
        }
    } else if v.len() > 0 {
        lemma_all_lowered(link, o.strings, nulls, name, v, o.said, v.len() as int);
        let last = now.owned.len() - 1;
        assert(now.owned[last].owner == (first + p) as u32);
    }
}

/// In a binary that compiles, every named definition owns exactly its blocks, inherited ones
/// included, under the tags and checksums that these have.
pub proof fn a_binary_holds_the_blocks_of_its_definitions(
    link: LinkView,
    strings: Seq<Seq<char>>,
    classes: Seq<Seq<char>>,
    d: NamedView,
    tables: Seq<Seq<char>>,
    sources: SourcesView,
    said: Seq<DiagnosticView>,
    p: int,
)
    requires
        0 <= p < d.order.len(),
        classes.len() + d.order.len() <= u32::MAX,
    ensures
        bin::bin_outcome(link, strings, classes, d, tables, sources, said).result matches Ok(r)
            ==> owns(
            r.1,
            (classes.len() + p) as u32,
            bin::blocks_of(d, tables, d.order[p]),
        ),
{
    let none = Emitted { entries: Seq::empty(), counters: Map::empty() };
    let n = classes.len() as int;
    if let (Ok(nulls), s) = emit::nulls_upto(link, strings, classes, n) {
        if let (Ok(st), s) = emit::null_entries(s, tables, nulls, classes, none, n) {
            let start = NamedOutcome { emitted: st, strings: s, said, failed: 0 };
            let k = d.order.len() as int;
            let o = emit::named_upto(
                link,
                tables,
                nulls,
                d.defs,
                d.names,
                sources,
                start,
                d.order,
                k,
            );
            let start = OwnedOutcome {
                owned: Seq::empty(),
                strings: o.strings,
                said: o.said,
                failed: 0,
            };
            let b = bin::owned_upto(link, nulls, d, tables, n as u32, start, k);
            if o.failed == 0 && b.failed == 0 {
                lemma_owned(link, nulls, d, tables, n as u32, start, k, p);
            }
        }
    }
}

} // verus!
