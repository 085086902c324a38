//! Members by name, and statements by form.

use vstd::prelude::*;

use crate::eval;
use crate::eval::Symbols;
use crate::lower::env::Context;
use crate::lower::steps;
use crate::lower::steps::Step;
use crate::reader;
use crate::reader::{EntryView, IndexGroup, PickView, ReaderErrorView, ReaderView};
use crate::text::ast::StatementView;
use crate::text::base::Spanned;
use crate::value;
use crate::value::{MemberView, ValueView};

verus! {

// ── Members ──────────────────────────────────────────────────────────────────

pub(crate) proof fn lemma_place(v: Seq<MemberView>, name: Seq<char>, k: int)
    requires
        0 <= k <= v.len(),
    ensures
        k <= value::member_place(v, name, k) <= v.len(),
        forall|i: int| k <= i < value::member_place(v, name, k) ==> (#[trigger] v[i]).name != name,
        value::member_place(v, name, k) < v.len() ==> v[value::member_place(v, name, k)].name
            == name,
    decreases v.len() - k,
{
    if k < v.len() && v[k].name != name {
        lemma_place(v, name, k + 1);
    }
}

proof fn lemma_same_place(v: Seq<MemberView>, w: Seq<MemberView>, name: Seq<char>, k: int)
    requires
        0 <= k <= v.len(),
        v.len() == w.len(),
        forall|i: int| 0 <= i < v.len() ==> (#[trigger] v[i]).name == w[i].name,
    ensures
        value::member_place(v, name, k) == value::member_place(w, name, k),
    decreases v.len() - k,
{
    if k < v.len() {
        assert(v[k].name == w[k].name);
        if v[k].name != name {
            lemma_same_place(v, w, name, k + 1);
        }
    }
}

/// A member that is set holds what it was set to, every other member keeps its value, and no
/// member comes or goes.
pub proof fn setting_a_member_sets_that_one(
    v: Seq<MemberView>,
    name: Seq<char>,
    x: ValueView,
    other: Seq<char>,
)
    ensures
        ({
            let w = value::with_member(v, name, x);
            &&& w.len() == v.len()
            &&& forall|i: int| 0 <= i < v.len() ==> (#[trigger] w[i]).name == v[i].name
            &&& value::member(v, name) is Some ==> value::member(w, name) == Some(x)
            &&& value::member(v, name) is None ==> w == v
            &&& other != name ==> value::member(w, other) == value::member(v, other)
        }),
{
    let w = value::with_member(v, name, x);
    lemma_place(v, name, 0);
    lemma_place(v, other, 0);
    assert forall|i: int| 0 <= i < v.len() implies (#[trigger] v[i]).name == w[i].name by {}
    lemma_same_place(v, w, name, 0);
    lemma_same_place(v, w, other, 0);
}

/// A member has the value of the first field with its name, and there is one exactly where
/// some field has the name.
pub proof fn a_member_is_found_by_its_name(v: Seq<MemberView>, name: Seq<char>, i: int)
    requires
        0 <= i < v.len(),
        v[i].name == name,
        forall|j: int| 0 <= j < i ==> (#[trigger] v[j]).name != name,
    ensures
        value::member(v, name) == Some(v[i].value),
{
    lemma_place(v, name, 0);
}

// ── Statements ───────────────────────────────────────────────────────────────

/// Whether no statement of a reader has the given form.
pub open spec fn silent(r: ReaderView, pick: PickView) -> bool {
    forall|i: int|
        0 <= i < r.entries.len() ==> !pick.picks((#[trigger] r.entries[i]).stmt.value, r.depth)
}

pub(crate) proof fn lemma_silent(r: ReaderView, pick: PickView, k: int)
    requires
        silent(r, pick),
    ensures
        reader::picked(r.entries, pick, r.depth, k).len() == 0,
    decreases k,
{
    if 0 < k <= r.entries.len() {
        lemma_silent(r, pick, k - 1);
        assert(!pick.picks(r.entries[k - 1].stmt.value, r.depth));
    }
}

/// A form that no statement has gives no value.
pub proof fn nothing_is_read_from_silence(r: ReaderView, pick: PickView)
    requires
        silent(r, pick),
    ensures
        r.value(pick) is None,
        r.all(pick).len() == 0,
{
    lemma_silent(r, pick, r.entries.len() as int);
}

/// Whether two readers have the same statements at the same depth, used or not.
pub open spec fn same_statements(a: ReaderView, b: ReaderView) -> bool {
    &&& a.depth == b.depth
    &&& a.symbols == b.symbols
    &&& a.entries.len() == b.entries.len()
    &&& forall|i: int|
        0 <= i < a.entries.len() ==> (#[trigger] a.entries[i]).stmt == b.entries[i].stmt
}

pub(crate) proof fn lemma_silent_same(a: ReaderView, b: ReaderView, pick: PickView)
    requires
        same_statements(a, b),
        silent(a, pick),
    ensures
        silent(b, pick),
{
    assert forall|i: int| 0 <= i < b.entries.len() implies !pick.picks(
        (#[trigger] b.entries[i]).stmt.value,
        b.depth,
    ) by {
        assert(!pick.picks(a.entries[i].stmt.value, a.depth));
    }
}

pub(crate) proof fn lemma_run_after_statements(table: Seq<Step>, k: int, r: ReaderView)
    ensures
        same_statements(r, steps::run_after(table, k, r)),
    decreases table.len() - k,
{
    if 0 <= k < table.len() {
        let rest = steps::step_after(table[k], r);
        lemma_run_after_statements(table, k + 1, rest);
        let end = steps::run_after(table, k, r);
        assert forall|i: int| 0 <= i < r.entries.len() implies (#[trigger] r.entries[i]).stmt
            == end.entries[i].stmt by {
            assert(rest.entries[i].stmt == end.entries[i].stmt);
        }
    }
}

pub(crate) proof fn lemma_picked_from(entries: Seq<EntryView>, pick: PickView, depth: int, k: int, p: int) -> (i: int)
    requires
        0 <= k <= entries.len(),
        0 <= p < reader::picked(entries, pick, depth, k).len(),
    ensures
        0 <= i < k,
        entries[i].stmt == reader::picked(entries, pick, depth, k)[p],
        pick.picks(entries[i].stmt.value, depth),
        !entries[i].consumed,
    decreases k,
{
    let before = reader::picked(entries, pick, depth, k - 1);
    if p < before.len() {
        lemma_picked_from(entries, pick, depth, k - 1, p)
    } else {
        k - 1
    }
}

// ── Groups by index ──────────────────────────────────────────────────────────

/// Whether every statement of every group is one of `stmts` whose index is that of the group.
pub(crate) open spec fn group_sound(
    syms: Symbols,
    stmts: Seq<Spanned<StatementView>>,
    depth: int,
    k: int,
    groups: Seq<IndexGroup>,
) -> bool {
    forall|g: int, j: int|
        0 <= g < groups.len() && 0 <= j < groups[g].stmts.len() ==> exists|i: int|
            0 <= i < k && #[trigger] stmts[i] == #[trigger] groups[g].stmts[j] && eval::as_usize(
                syms,
                reader::index_of(stmts[i].value, depth).value,
            ) == Ok::<usize, eval::EvalErrorView>(groups[g].index)
}

proof fn lemma_add_sound(
    syms: Symbols,
    stmts: Seq<Spanned<StatementView>>,
    depth: int,
    k: int,
    groups: Seq<IndexGroup>,
    at: int,
    index: usize,
)
    requires
        0 < k <= stmts.len(),
        0 <= at <= groups.len(),
        group_sound(syms, stmts, depth, k - 1, groups),
        eval::as_usize(syms, reader::index_of(stmts[k - 1].value, depth).value) == Ok::<
            usize,
            eval::EvalErrorView,
        >(index),
    ensures
        group_sound(syms, stmts, depth, k, reader::add_indexed(groups, at, index, stmts[k - 1])),
    decreases groups.len() - at,
{
    let after = reader::add_indexed(groups, at, index, stmts[k - 1]);
    if at < groups.len() && index > groups[at].index {
        lemma_add_sound(syms, stmts, depth, k, groups, at + 1, index);
    } else {
        assert forall|g: int, j: int|
            0 <= g < after.len() && 0 <= j < after[g].stmts.len() implies exists|i: int|
            0 <= i < k && #[trigger] stmts[i] == #[trigger] after[g].stmts[j] && eval::as_usize(
                syms,
                reader::index_of(stmts[i].value, depth).value,
            ) == Ok::<usize, eval::EvalErrorView>(after[g].index) by {
            let fresh = at >= groups.len() || index < groups[at].index;
            if fresh {
                if g == at {
                    assert(after[g].stmts[j] == stmts[k - 1]);
                } else {
                    let h = if g < at {
                        g
                    } else {
                        g - 1
                    };
                    assert(after[g] == groups[h]);
                    let x = groups[h].stmts[j];
                    assert(x == after[g].stmts[j]);
                }
            } else if g == at {
                if j < groups[at].stmts.len() {
                    let x = groups[at].stmts[j];
                    assert(x == after[g].stmts[j]);
                } else {
                    assert(after[g].stmts[j] == stmts[k - 1]);
                }
            } else {
                assert(after[g] == groups[g]);
                let x = groups[g].stmts[j];
                assert(x == after[g].stmts[j]);
            }
        }
    }
}

proof fn lemma_grouped_sound(
    syms: Symbols,
    stmts: Seq<Spanned<StatementView>>,
    depth: int,
    k: int,
)
    requires
        0 <= k <= stmts.len(),
    ensures
        reader::grouped(syms, stmts, depth, k) matches Ok(groups) ==> group_sound(
            syms,
            stmts,
            depth,
            k,
            groups,
        ),
    decreases k,
{
    if k > 0 {
        lemma_grouped_sound(syms, stmts, depth, k - 1);
        if let Ok(groups) = reader::grouped(syms, stmts, depth, k - 1) {
            let e = reader::index_of(stmts[k - 1].value, depth);
            if let Ok(index) = eval::as_usize(syms, e.value) {
                lemma_add_sound(syms, stmts, depth, k, groups, 0, index);
            }
        }
    }
}

/// The statements of a group are statements of the reader, and have the group's index.
pub proof fn groups_hold_the_statements_of_their_index(
    r: ReaderView,
    name: Seq<char>,
    groups: Seq<IndexGroup>,
    g: int,
    j: int,
) -> (i: int)
    requires
        r.by_index(name) == Ok::<Seq<IndexGroup>, ReaderErrorView>(groups),
        0 <= g < groups.len(),
        0 <= j < groups[g].stmts.len(),
    ensures
        0 <= i < r.entries.len(),
        r.entries[i].stmt == groups[g].stmts[j],
        PickView::Indexed(name).picks(groups[g].stmts[j].value, r.depth),
        eval::as_usize(r.symbols, reader::index_of(groups[g].stmts[j].value, r.depth).value)
            == Ok::<usize, eval::EvalErrorView>(groups[g].index),
{
    let pick = PickView::Indexed(name);
    let stmts = r.all(pick);
    lemma_grouped_sound(r.symbols, stmts, r.depth, stmts.len() as int);
    let x = groups[g].stmts[j];
    let p = choose|i: int|
        0 <= i < stmts.len() && #[trigger] stmts[i] == groups[g].stmts[j] && eval::as_usize(
            r.symbols,
            reader::index_of(stmts[i].value, r.depth).value,
        ) == Ok::<usize, eval::EvalErrorView>(groups[g].index);
    lemma_picked_from(r.entries, pick, r.depth, r.entries.len() as int, p)
}

// ── Tables ───────────────────────────────────────────────────────────────────

/// The field that a step is about.
pub open spec fn step_name(s: Step) -> Seq<char> {
    match s {
        Step::Field(name, _) => name@,
        Step::Strict(name, _) => name@,
        Step::Items(name, _) => name@,
        Step::Entries(name, _, _) => name@,
        Step::Strings(name) => name@,
        Step::Sorted(name) => name@,
    }
}

proof fn lemma_step_keeps(cx: Context, s: Step, v: Seq<MemberView>, r: ReaderView, name: Seq<char>)
    requires
        step_name(s) != name || ((s is Field || s is Strict) && silent(r, PickView::Leaf(name))),
    ensures
        steps::step(cx, s, v, r) matches Ok(w) ==> value::member(w, name) == value::member(v, name)
            && w.len() == v.len() && forall|i: int|
            0 <= i < v.len() ==> (#[trigger] w[i]).name == v[i].name,
{
    if silent(r, PickView::Leaf(name)) {
        nothing_is_read_from_silence(r, PickView::Leaf(name));
    }
    if let Ok(w) = steps::step(cx, s, v, r) {
        if w != v {
            let x = choose|x: ValueView| w == #[trigger] value::with_member(v, step_name(s), x);
            assert(exists|x: ValueView| w == #[trigger] value::with_member(v, step_name(s), x));
            setting_a_member_sets_that_one(v, step_name(s), x, name);
        }
    }
}

/// A table leaves a field as it is where none of its steps is about the field, or where the
/// field is a scalar that no statement sets.
pub proof fn a_table_keeps_other_fields(
    cx: Context,
    table: Seq<Step>,
    k: int,
    v: Seq<MemberView>,
    r: ReaderView,
    name: Seq<char>,
)
    requires
        0 <= k,
        forall|j: int|
            k <= j < table.len() ==> step_name(#[trigger] table[j]) != name || ((table[j] is Field
                || table[j] is Strict) && silent(r, PickView::Leaf(name))),
    ensures
        steps::run(cx, table, k, v, r) matches Ok(w) ==> value::member(w, name) == value::member(
            v,
            name,
        ) && w.len() == v.len() && forall|i: int|
            0 <= i < v.len() ==> (#[trigger] w[i]).name == v[i].name,
    decreases table.len() - k,
{
    if k < table.len() {
        assert(step_name(table[k]) != name || ((table[k] is Field || table[k] is Strict) && silent(
            r,
            PickView::Leaf(name),
        )));
        lemma_step_keeps(cx, table[k], v, r, name);
        if let Ok(next) = steps::step(cx, table[k], v, r) {
            let rest = steps::step_after(table[k], r);
            assert(same_statements(r, rest));
            if silent(r, PickView::Leaf(name)) {
                lemma_silent_same(r, rest, PickView::Leaf(name));
            }
            a_table_keeps_other_fields(cx, table, k + 1, next, rest, name);
        }
    }
}

} // verus!
