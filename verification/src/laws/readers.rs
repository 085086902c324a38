//! Reading statements by their form.

use vstd::prelude::*;

use crate::eval;
use crate::eval::Symbols;
use crate::reader;
use crate::reader::{ArgsView, IndexGroup, KeyGroup, PickView, ReaderErrorView, ReaderView};
use crate::single::Single;
use crate::text::ast;
use crate::text::ast::{ExprView, SegmentView, StatementView};
use crate::text::base::{Span, Spanned};

verus! {

// ── Names of members ─────────────────────────────────────────────────────────

/// Member names count without regard to case and to `_`: a name with a `_` more, or with a
/// letter in the other case, is the same.
pub proof fn member_names_count_without_case(s: Seq<char>, c: char)
    ensures
        reader::normalized(s.push('_')) == reader::normalized(s),
        c != '_' && !('A' <= c && c <= 'Z') ==> reader::normalized(s.push(c)) == reader::normalized(
            s,
        ).push(c),
        'A' <= c && c <= 'Z' ==> reader::normalized(s.push(c)) == reader::normalized(s).push(
            (c as u32 + 32) as char,
        ),
        reader::normalized(Seq::empty()) == Seq::<char>::empty(),
{
    assert(s.push('_').drop_last() =~= s);
    assert(s.push(c).drop_last() =~= s);
    if 'A' <= c && c <= 'Z' {
        assert((c as u8 + 32) as char == (c as u32 + 32) as char);
    }
}

// ── Arguments ────────────────────────────────────────────────────────────────

/// An argument is read by its place, as what is asked for; one that is not there is missing.
pub proof fn arguments_are_read_by_their_place(a: ArgsView, i: int, name: Seq<char>)
    requires
        0 <= i <= usize::MAX,
    ensures
        i < a.args.len() ==> {
            let e = a.args[i];
            &&& (eval::as_i32(a.symbols, e.value) matches Ok(n) ==> a.i32(i) == Ok::<
                i32,
                ReaderErrorView,
            >(n))
            &&& (eval::as_i32(a.symbols, e.value) matches Err(x) ==> a.i32(i) == Err::<
                i32,
                ReaderErrorView,
            >(ReaderErrorView::Eval(x, e.span)))
            &&& (eval::as_u32(a.symbols, e.value) matches Ok(n) ==> a.u32(i) == Ok::<
                u32,
                ReaderErrorView,
            >(n))
            &&& (eval::as_single(a.symbols, e.value) matches Ok(x) ==> a.single(i) == Ok::<
                Single,
                ReaderErrorView,
            >(x))
            &&& (eval::as_bool(e.value) matches Ok(b) ==> a.bool(i) == Ok::<bool, ReaderErrorView>(
                b,
            ))
            &&& (eval::as_string(e.value) matches Ok(s) ==> a.string(i) == Ok::<
                Seq<char>,
                ReaderErrorView,
            >(s))
            &&& (e.value matches ExprView::Constructor(c) ==> (c.name == name ==> a.ctor(i, name)
                == Ok::<ArgsView, ReaderErrorView>(
                (ArgsView { args: c.arguments, symbols: a.symbols }),
            )) && (c.name != name ==> a.ctor(i, name) is Err))
            &&& !(e.value is Constructor) ==> a.ctor(i, name) is Err
        },
        i >= a.args.len() ==> a.i32(i) == Err::<i32, ReaderErrorView>(
            ReaderErrorView::MissingArg(i as usize, Span::nowhere()),
        ) && a.u32(i) is Err && a.single(i) is Err && a.bool(i) is Err && a.string(i) is Err
            && a.ctor(i, name) is Err,
{
}

// ── Fields ───────────────────────────────────────────────────────────────────

/// A field that is asked for is what its last statement says; without a statement it is
/// nothing.
pub proof fn fields_are_read_as_asked_for(r: ReaderView, name: Seq<char>)
    ensures
        r.value(PickView::Leaf(name)) is None ==> r.opt_i32(name) == Ok::<
            Option<i32>,
            ReaderErrorView,
        >(None) && r.opt_u32(name) == Ok::<Option<u32>, ReaderErrorView>(None) && r.opt_single(name)
            == Ok::<Option<Single>, ReaderErrorView>(None) && r.opt_bool(name) == Ok::<
            Option<bool>,
            ReaderErrorView,
        >(None) && r.opt_string(name) == Ok::<Option<Seq<char>>, ReaderErrorView>(None),
        r.value(PickView::Leaf(name)) matches Some(e) ==> {
            &&& (eval::as_i32(r.symbols, e.value) matches Ok(n) ==> r.opt_i32(name) == Ok::<
                Option<i32>,
                ReaderErrorView,
            >(Some(n)))
            &&& (eval::as_u32(r.symbols, e.value) matches Ok(n) ==> r.opt_u32(name) == Ok::<
                Option<u32>,
                ReaderErrorView,
            >(Some(n)))
            &&& (eval::as_single(r.symbols, e.value) matches Ok(x) ==> r.opt_single(name) == Ok::<
                Option<Single>,
                ReaderErrorView,
            >(Some(x)))
            &&& (eval::as_bool(e.value) matches Ok(b) ==> r.opt_bool(name) == Ok::<
                Option<bool>,
                ReaderErrorView,
            >(Some(b)))
            &&& (eval::as_string(e.value) matches Ok(s) ==> r.opt_string(name) == Ok::<
                Option<Seq<char>>,
                ReaderErrorView,
            >(Some(s)))
            &&& (eval::as_i32(r.symbols, e.value) matches Err(x) ==> r.opt_i32(name) == Err::<
                Option<i32>,
                ReaderErrorView,
            >(ReaderErrorView::Eval(x, e.span)))
        },
{
}

/// A statement `name e;` is read as the field `name`, and as no other; one about a part of
/// it, or a call, is not.
pub proof fn a_statement_is_about_its_field(
    path: Seq<SegmentView>,
    e: Spanned<ExprView>,
    name: Seq<char>,
    other: Seq<char>,
)
    requires
        path.len() > 0,
        path[0] == SegmentView::Field(name),
        other != name,
    ensures
        ({
            let s = StatementView::Field { path, expr: e };
            &&& PickView::Leaf(name).picks(s, 0) == (path.len() == 1)
            &&& !PickView::Leaf(other).picks(s, 0)
            &&& PickView::Group(name).picks(s, 0) == (path.len() > 1 && path[1] is Field)
            &&& PickView::Indexed(name).picks(s, 0) == (path.len() > 1 && path[1] is Index)
            &&& PickView::Keyed(name).picks(s, 0) == (path.len() > 1 && path[1] is Index)
            &&& !PickView::Group(other).picks(s, 0) && !PickView::Indexed(other).picks(s, 0)
            &&& path.len() == 1 ==> PickView::Member(name).picks(s, 0)
        }),
{
}

// ── Groups ───────────────────────────────────────────────────────────────────

/// Whether the statement is in the group of the index.
pub open spec fn in_group(
    groups: Seq<IndexGroup>,
    index: usize,
    s: Spanned<StatementView>,
) -> bool {
    exists|g: int|
        0 <= g < groups.len() && (#[trigger] groups[g]).index == index && groups[g].stmts.contains(
            s,
        )
}

proof fn lemma_added(groups: Seq<IndexGroup>, k: int, index: usize, s: Spanned<StatementView>)
    requires
        0 <= k <= groups.len(),
    ensures
        ({
            let r = reader::add_indexed(groups, k, index, s);
            &&& exists|g: int|
                0 <= g < r.len() && (#[trigger] r[g]).index == index && r[g].stmts.contains(s)
            &&& forall|g: int, t: Spanned<StatementView>|
                0 <= g < groups.len() && #[trigger] groups[g].stmts.contains(t) ==> exists|h: int|
                    0 <= h < r.len() && (#[trigger] r[h]).index == groups[g].index
                        && r[h].stmts.contains(t)
        }),
    decreases groups.len() - k,
{
    let r = reader::add_indexed(groups, k, index, s);
    if k < groups.len() && index > groups[k].index {
        lemma_added(groups, k + 1, index, s);
    } else {
        let fresh = k >= groups.len() || index < groups[k].index;
        if fresh {
            assert(r[k].stmts[0] == s);
        } else {
            assert(r[k].stmts[groups[k].stmts.len() as int] == s);
        }
        assert(r[k].index == index && r[k].stmts.contains(s));
        assert forall|g: int, t: Spanned<StatementView>|
            0 <= g < groups.len() && #[trigger] groups[g].stmts.contains(t) implies exists|h: int|
            0 <= h < r.len() && (#[trigger] r[h]).index == groups[g].index && r[h].stmts.contains(
                t,
            ) by {
            if fresh {
                let h = if g < k {
                    g
                } else {
                    g + 1
                };
                assert(r[h] == groups[g]);
            } else if g == k {
                let p = choose|p: int| 0 <= p < groups[k].stmts.len() && groups[k].stmts[p] == t;
                assert(r[k].stmts[p] == t);
                assert(r[k].stmts.contains(t));
            } else {
                assert(r[g] == groups[g]);
            }
        }
    }
}

proof fn lemma_grouped(
    syms: Symbols,
    stmts: Seq<Spanned<StatementView>>,
    depth: int,
    k: int,
    i: int,
)
    requires
        0 <= i < k <= stmts.len(),
        reader::grouped(syms, stmts, depth, k) is Ok,
    ensures
        eval::as_usize(syms, reader::index_of(stmts[i].value, depth).value) is Ok,
        in_group(
            reader::grouped(syms, stmts, depth, k)->Ok_0,
            eval::as_usize(syms, reader::index_of(stmts[i].value, depth).value)->Ok_0,
            stmts[i],
        ),
    decreases k,
{
    let groups = reader::grouped(syms, stmts, depth, k - 1)->Ok_0;
    let e = reader::index_of(stmts[k - 1].value, depth);
    let index = eval::as_usize(syms, e.value)->Ok_0;
    let r = reader::grouped(syms, stmts, depth, k)->Ok_0;
    assert(r == reader::add_indexed(groups, 0, index, stmts[k - 1]));
    lemma_added(groups, 0, index, stmts[k - 1]);
    if i < k - 1 {
        lemma_grouped(syms, stmts, depth, k - 1, i);
        let at = eval::as_usize(syms, reader::index_of(stmts[i].value, depth).value)->Ok_0;
        let g = choose|g: int|
            0 <= g < groups.len() && (#[trigger] groups[g]).index == at
                && groups[g].stmts.contains(stmts[i]);
        assert(groups[g].stmts.contains(stmts[i]));
    }
}

/// Every statement with an index is in the group of its index.
pub proof fn every_indexed_statement_is_grouped(
    r: ReaderView,
    name: Seq<char>,
    groups: Seq<IndexGroup>,
    i: int,
)
    requires
        r.by_index(name) == Ok::<Seq<IndexGroup>, ReaderErrorView>(groups),
        0 <= i < r.all(PickView::Indexed(name)).len(),
    ensures
        ({
            let s = r.all(PickView::Indexed(name))[i];
            eval::as_usize(r.symbols, reader::index_of(s.value, r.depth).value) matches Ok(index)
                && in_group(groups, index, s)
        }),
{
    let stmts = r.all(PickView::Indexed(name));
    lemma_grouped(r.symbols, stmts, r.depth, stmts.len() as int, i);
}

proof fn lemma_key_added(
    groups: Seq<KeyGroup>,
    k: int,
    key: Spanned<ExprView>,
    s: Spanned<StatementView>,
)
    requires
        0 <= k <= groups.len(),
    ensures
        ({
            let r = reader::add_keyed(groups, k, key, s);
            &&& exists|g: int|
                0 <= g < r.len() && ast::expr_text((#[trigger] r[g]).key.value) == ast::expr_text(
                    key.value,
                ) && r[g].stmts.contains(s)
            &&& forall|g: int, t: Spanned<StatementView>|
                0 <= g < groups.len() && #[trigger] groups[g].stmts.contains(t) ==> g < r.len()
                    && r[g].key == groups[g].key && r[g].stmts.contains(t)
        }),
    decreases groups.len() - k,
{
    let r = reader::add_keyed(groups, k, key, s);
    if k >= groups.len() {
        assert(r[k].stmts[0] == s);
        assert(r[k].key == key && r[k].stmts.contains(s));
    } else if ast::expr_text(groups[k].key.value) == ast::expr_text(key.value) {
        assert(r[k].stmts[groups[k].stmts.len() as int] == s);
        assert(r[k].key == groups[k].key && r[k].stmts.contains(s));
        assert forall|g: int, t: Spanned<StatementView>|
            0 <= g < groups.len() && #[trigger] groups[g].stmts.contains(t) implies g < r.len()
            && r[g].key == groups[g].key && r[g].stmts.contains(t) by {
            if g == k {
                let p = choose|p: int| 0 <= p < groups[k].stmts.len() && groups[k].stmts[p] == t;
                assert(r[k].stmts[p] == t);
            }
        }
    } else {
        lemma_key_added(groups, k + 1, key, s);
    }
}

proof fn lemma_keyed(stmts: Seq<Spanned<StatementView>>, depth: int, k: int, i: int)
    requires
        0 <= i < k <= stmts.len(),
    ensures
        ({
            let groups = reader::keyed_groups(stmts, depth, k);
            exists|g: int|
                0 <= g < groups.len() && ast::expr_text((#[trigger] groups[g]).key.value)
                    == ast::expr_text(reader::index_of(stmts[i].value, depth).value)
                    && groups[g].stmts.contains(stmts[i])
        }),
    decreases k,
{
    let groups = reader::keyed_groups(stmts, depth, k - 1);
    let key = reader::index_of(stmts[k - 1].value, depth);
    let r = reader::keyed_groups(stmts, depth, k);
    lemma_key_added(groups, 0, key, stmts[k - 1]);
    if i < k - 1 {
        lemma_keyed(stmts, depth, k - 1, i);
        let g = choose|g: int|
            0 <= g < groups.len() && ast::expr_text((#[trigger] groups[g]).key.value)
                == ast::expr_text(reader::index_of(stmts[i].value, depth).value)
                && groups[g].stmts.contains(stmts[i]);
        assert(groups[g].stmts.contains(stmts[i]));
        assert(r[g].key == groups[g].key);
    }
}

/// Every statement with a key is in the group of the keys that are written as it is.
pub proof fn every_keyed_statement_is_grouped(r: ReaderView, name: Seq<char>, i: int)
    requires
        0 <= i < r.all(PickView::Keyed(name)).len(),
    ensures
        ({
            let s = r.all(PickView::Keyed(name))[i];
            let groups = r.by_key(name);
            exists|g: int|
                0 <= g < groups.len() && ast::expr_text((#[trigger] groups[g]).key.value)
                    == ast::expr_text(reader::index_of(s.value, r.depth).value)
                    && groups[g].stmts.contains(s)
        }),
{
    let stmts = r.all(PickView::Keyed(name));
    lemma_keyed(stmts, r.depth, stmts.len() as int, i);
    let groups = r.by_key(name);
    let g = choose|g: int|
        0 <= g < groups.len() && ast::expr_text((#[trigger] groups[g]).key.value)
            == ast::expr_text(reader::index_of(stmts[i].value, r.depth).value)
            && groups[g].stmts.contains(stmts[i]);
    assert(groups[g].stmts.contains(stmts[i]));
}

/// A group has the statements below its index or key, two segments further on.
pub proof fn groups_are_read_below_their_index(
    r: ReaderView,
    groups: Seq<IndexGroup>,
    keyed: Seq<KeyGroup>,
    i: int,
)
    ensures
        0 <= i < groups.len() ==> {
            let g = r.indexed_readers(groups)[i];
            &&& g.0 == groups[i].index
            &&& g.1.depth == r.depth + 2
            &&& g.1.symbols == r.symbols
            &&& g.1.entries.len() == groups[i].stmts.len()
            &&& forall|j: int|
                0 <= j < groups[i].stmts.len() ==> (#[trigger] g.1.entries[j]).stmt
                    == groups[i].stmts[j] && !g.1.entries[j].consumed
        },
        0 <= i < keyed.len() ==> {
            let g = r.keyed_readers(keyed)[i];
            &&& g.0 == keyed[i].key
            &&& g.1.depth == r.depth + 2
            &&& g.1.symbols == r.symbols
            &&& g.1.entries.len() == keyed[i].stmts.len()
            &&& forall|j: int|
                0 <= j < keyed[i].stmts.len() ==> (#[trigger] g.1.entries[j]).stmt
                    == keyed[i].stmts[j] && !g.1.entries[j].consumed
        },
{
}

/// Calls are read with their arguments, in order.
pub proof fn calls_are_read_with_their_arguments(
    r: ReaderView,
    object: Seq<char>,
    method: Seq<char>,
    i: int,
)
    requires
        0 <= i < r.all(PickView::Calls(object, method)).len(),
    ensures
        r.call_args(object, method).len() == r.all(PickView::Calls(object, method)).len(),
        r.all(PickView::Calls(object, method))[i].value matches StatementView::MethodCall {
            call,
            ..
        } ==> r.call_args(object, method)[i].args == call.arguments && r.call_args(
            object,
            method,
        )[i].symbols == r.symbols,
{
}

} // verus!
