//! Lists and maps, and the statements that fill them.

use vstd::prelude::*;

use super::fields::settable;
use crate::eval;
use crate::eval::EvalErrorView;
use crate::lower::body;
use crate::lower::construct;
use crate::lower::env::{Context, LowerErrorView};
use crate::lower::fields;
use crate::reader;
use crate::reader::{ArgsView, PickView, ReaderView};
use crate::text::ast::{ExprView, SegmentView, StatementView};
use crate::text::base::Spanned;
use crate::value;
use crate::value::{ListView, MapView, MemberView, PairView, ValueView};

verus! {

// ── Statements about one field ───────────────────────────────────────────────

/// Whether every statement is about the field `name`.
pub open spec fn only_about(stmts: Seq<Spanned<StatementView>>, name: Seq<char>) -> bool {
    forall|j: int| 0 <= j < stmts.len() ==> fields::mentions((#[trigger] stmts[j]).value, name)
}

/// What lowering gives: the fields with field `i` set, and no statement left.
pub open spec fn with_value(base: Seq<MemberView>, i: int, x: ValueView) -> super::fields::Fields {
    Ok((base.update(i, MemberView { name: base[i].name, value: x }), Seq::empty()))
}

spec fn reads_only(r: ReaderView, name: Seq<char>) -> bool {
    r.depth == 0 && forall|j: int|
        0 <= j < r.entries.len() ==> fields::mentions((#[trigger] r.entries[j]).stmt.value, name)
}

proof fn lemma_other_kept(v: ValueView, name: Seq<char>, r: ReaderView, other: Seq<char>)
    requires
        reads_only(r, other),
        name != other,
    ensures
        fields::after(v, name, r) == r,
        fields::untouched(r, name),
{
    let c = fields::after(v, name, r);
    fields::lemma_after_statements(v, name, r);
    assert forall|j: int| 0 <= j < r.entries.len() implies !fields::mentions(
        (#[trigger] r.entries[j]).stmt.value,
        name,
    ) by {
        assert(fields::mentions(r.entries[j].stmt.value, other));
    }
    lemma_nothing_used(r, name, PickView::Leaf(name));
    lemma_nothing_used(r, name, PickView::Group(name));
    lemma_nothing_used(r, name, PickView::Calls(name, "clear"@));
    lemma_nothing_used(r, name, PickView::Calls(name, "resize"@));
    lemma_nothing_used(r, name, PickView::Calls(name, "Add"@));
    lemma_nothing_used(r, name, PickView::Indexed(name));
    lemma_nothing_used(r, name, PickView::Keyed(name));
}

proof fn lemma_nothing_used(r: ReaderView, name: Seq<char>, pick: PickView)
    requires
        fields::untouched(r, name),
        fields::about(pick, name),
    ensures
        r.without(pick) == r,
{
    let c = r.without(pick);
    assert forall|j: int| 0 <= j < r.entries.len() implies c.entries[j] == r.entries[j] by {
        assert(!fields::mentions(r.entries[j].stmt.value, name));
    }
    assert(c.entries =~= r.entries);
}

proof fn lemma_walk_done(cx: Context, v: Seq<MemberView>, k: int, r: ReaderView, i: int)
    requires
        0 <= i < k <= v.len(),
        settable(v),
        reads_only(r, v[i].name),
    ensures
        fields::walk(cx, v, k, r) == Ok::<Seq<MemberView>, (Seq<MemberView>, LowerErrorView)>(v),
        fields::walk_after(v, k, r) == r,
    decreases v.len() - k,
{
    if k < v.len() {
        assert(v[i].name != v[k].name);
        lemma_other_kept(v[k].value, v[k].name, r, v[i].name);
        fields::lemma_untouched(cx, v[k].value, v[k].name, r);
        assert(construct::with_value(v, k, v[k].value) =~= v);
        lemma_walk_done(cx, v, k + 1, r, i);
    }
}

proof fn lemma_walk_only(cx: Context, v: Seq<MemberView>, k: int, r: ReaderView, i: int)
    requires
        0 <= k <= i < v.len(),
        settable(v),
        reads_only(r, v[i].name),
    ensures
        (match fields::named(cx, v[i].value, v[i].name, r) {
            Ok(x) => (!(x is Complex) && !(x is Array)) ==> fields::walk(cx, v, k, r) == Ok::<
                Seq<MemberView>,
                (Seq<MemberView>, LowerErrorView),
            >(v.update(i, MemberView { name: v[i].name, value: x })),
            Err((_, x)) => fields::walk(cx, v, k, r) matches Err((_, y)) && y == x,
        }),
        fields::walk_after(v, k, r) == fields::after(v[i].value, v[i].name, r),
    decreases i - k,
{
    if k < i {
        assert(v[k].name != v[i].name);
        lemma_other_kept(v[k].value, v[k].name, r, v[i].name);
        fields::lemma_untouched(cx, v[k].value, v[k].name, r);
        assert(construct::with_value(v, k, v[k].value) =~= v);
        lemma_walk_only(cx, v, k + 1, r, i);
    } else {
        let rest = fields::after(v[k].value, v[k].name, r);
        fields::lemma_after_statements(v[k].value, v[k].name, r);
        assert(reads_only(rest, v[i].name)) by {
            assert forall|j: int| 0 <= j < rest.entries.len() implies fields::mentions(
                (#[trigger] rest.entries[j]).stmt.value,
                v[i].name,
            ) by {
                assert(fields::mentions(r.entries[j].stmt.value, v[i].name));
            }
        }
        if let Ok(x) = fields::named(cx, v[k].value, v[k].name, r) {
            if !(x is Complex) && !(x is Array) {
                let next = construct::with_value(v, k, x);
                assert(next =~= v.update(i, MemberView { name: v[i].name, value: x }));
                assert(settable(next)) by {
                    assert forall|p: int, q: int| 0 <= p < q < next.len() implies (
                    #[trigger] next[p]).name != (#[trigger] next[q]).name by {
                        assert(v[p].name != v[q].name);
                    }
                    assert forall|p: int| 0 <= p < next.len() implies !((
                    #[trigger] next[p]).value is Complex) && !(next[p].value is Array) by {
                        assert(!(v[p].value is Complex) && !(v[p].value is Array));
                    }
                }
                lemma_walk_done(cx, next, k + 1, rest, i);
            }
        }
        lemma_walk_done(cx, v, k + 1, rest, i);
    }
}

pub(crate) proof fn lemma_only(
    cx: Context,
    base: Seq<MemberView>,
    body: Seq<Spanned<StatementView>>,
    i: int,
)
    requires
        0 <= i < base.len(),
        settable(base),
        only_about(body::stripped(body), base[i].name),
    ensures
        ({
            let r = fields::over(cx, body::stripped(body));
            match fields::named(cx, base[i].value, base[i].name, r) {
                Ok(x) => (!(x is Complex) && !(x is Array)) ==> fields::generic(cx, base, body)
                    == Ok::<(Seq<MemberView>, Seq<Spanned<StatementView>>), LowerErrorView>(
                    (
                        base.update(i, MemberView { name: base[i].name, value: x }),
                        fields::after(base[i].value, base[i].name, r).left_over(),
                    ),
                ),
                Err((_, x)) => fields::generic(cx, base, body) == Err::<
                    (Seq<MemberView>, Seq<Spanned<StatementView>>),
                    LowerErrorView,
                >(x),
            }
        }),
{
    let stmts = body::stripped(body);
    let r = fields::over(cx, stmts);
    assert forall|j: int| 0 <= j < r.entries.len() implies fields::mentions(
        (#[trigger] r.entries[j]).stmt.value,
        base[i].name,
    ) by {
        assert(fields::mentions(stmts[j].value, base[i].name));
    }
    lemma_walk_only(cx, base, 0, r, i);
}

// ── Calls ────────────────────────────────────────────────────────────────────

/// The statement `name.method(args);`.
pub open spec fn calls(
    s: StatementView,
    name: Seq<char>,
    method: Seq<char>,
    args: Seq<Spanned<ExprView>>,
) -> bool {
    s matches StatementView::MethodCall { object, call } && object == seq![SegmentView::Field(name)]
        && call.name == method && call.arguments == args
}

proof fn lemma_methods_differ()
    ensures
        "clear"@ != "resize"@,
        "clear"@ != "Add"@,
        "resize"@ != "Add"@,
{
    reveal_strlit("clear");
    reveal_strlit("resize");
    reveal_strlit("Add");
    assert("clear"@.len() == 5 && "resize"@.len() == 6 && "Add"@.len() == 3);
}

proof fn lemma_not_cleared(body: Seq<Spanned<StatementView>>, k: int)
    requires
        0 <= k <= body.len(),
        forall|j: int| 0 <= j < body.len() ==> body::cleared((#[trigger] body[j]).value) is None,
    ensures
        body::standing(body, k) == body.take(k),
    decreases k,
{
    if k > 0 {
        lemma_not_cleared(body, k - 1);
        assert(!body::superseded(body, k - 1)) by {
            if body::superseded(body, k - 1) {
                let j = choose|j: int|
                    k - 1 < j < body.len() && body::cleared((#[trigger] body[j]).value)
                        == body::field_of(body[k - 1].value);
                assert(body::cleared(body[j].value) is None);
            }
        }
        assert(body.take(k) =~= body.take(k - 1).push(body[k - 1]));
    } else {
        assert(body.take(0) =~= Seq::<Spanned<StatementView>>::empty());
    }
}

proof fn lemma_all_picked(r: ReaderView, pick: PickView, k: int)
    requires
        0 <= k <= r.entries.len(),
        forall|j: int|
            0 <= j < r.entries.len() ==> !(#[trigger] r.entries[j]).consumed && pick.picks(
                r.entries[j].stmt.value,
                r.depth,
            ),
    ensures
        reader::picked(r.entries, pick, r.depth, k) == Seq::new(
            k as nat,
            |j: int| r.entries[j].stmt,
        ),
    decreases k,
{
    if k > 0 {
        lemma_all_picked(r, pick, k - 1);
        assert(!r.entries[k - 1].consumed && pick.picks(r.entries[k - 1].stmt.value, r.depth));
        assert(reader::picked(r.entries, pick, r.depth, k) =~= Seq::new(
            k as nat,
            |j: int| r.entries[j].stmt,
        ));
    } else {
        assert(reader::picked(r.entries, pick, r.depth, k) =~= Seq::new(
            k as nat,
            |j: int| r.entries[j].stmt,
        ));
    }
}

proof fn lemma_none_picked(r: ReaderView, pick: PickView, k: int)
    requires
        forall|j: int|
            0 <= j < r.entries.len() ==> (#[trigger] r.entries[j]).consumed || !pick.picks(
                r.entries[j].stmt.value,
                r.depth,
            ),
    ensures
        reader::picked(r.entries, pick, r.depth, k) == Seq::<Spanned<StatementView>>::empty(),
    decreases k,
{
    if 0 < k <= r.entries.len() {
        lemma_none_picked(r, pick, k - 1);
        assert(r.entries[k - 1].consumed || !pick.picks(r.entries[k - 1].stmt.value, r.depth));
    }
}

proof fn lemma_none_used(r: ReaderView, pick: PickView)
    requires
        forall|j: int|
            0 <= j < r.entries.len() ==> !pick.picks((#[trigger] r.entries[j]).stmt.value, r.depth),
    ensures
        r.without(pick) == r,
{
    let c = r.without(pick);
    assert forall|j: int| 0 <= j < r.entries.len() implies c.entries[j] == r.entries[j] by {
        assert(!pick.picks(r.entries[j].stmt.value, r.depth));
    }
    assert(c.entries =~= r.entries);
}

proof fn lemma_unused_none(entries: Seq<reader::EntryView>, k: int)
    requires
        forall|j: int| 0 <= j < entries.len() ==> (#[trigger] entries[j]).consumed,
    ensures
        reader::unused(entries, k) == Seq::<Spanned<StatementView>>::empty(),
    decreases k,
{
    if 0 < k <= entries.len() {
        lemma_unused_none(entries, k - 1);
        assert(entries[k - 1].consumed);
    }
}

// ── Lists ────────────────────────────────────────────────────────────────────

proof fn lemma_added(
    cx: Context,
    l: ListView,
    name: Seq<char>,
    args: Seq<ArgsView>,
    xs: Seq<ValueView>,
    k: int,
)
    requires
        0 <= k <= args.len(),
        args.len() == xs.len(),
        name != "NavigatorTypes"@,
        forall|j: int|
            0 <= j < args.len() ==> fields::from_args(
                cx,
                *l.element,
                (#[trigger] args[j]).args,
            ) == Ok::<ValueView, (ValueView, LowerErrorView)>(xs[j]),
    ensures
        fields::added(cx, l, name, args, k) == Ok::<ListView, (ListView, LowerErrorView)>(
            ListView { items: l.items + xs.skip(k), ..l },
        ),
    decreases args.len() - k,
{
    if k < args.len() {
        assert(fields::from_args(cx, *l.element, args[k].args) == Ok::<
            ValueView,
            (ValueView, LowerErrorView),
        >(xs[k]));
        let next = ListView { items: l.items.push(xs[k]), ..l };
        lemma_added(cx, next, name, args, xs, k + 1);
        assert(next.items + xs.skip(k + 1) =~= l.items + xs.skip(k));
    } else {
        assert(l.items + xs.skip(k) =~= l.items);
    }
}

/// Each `name.Add(…);` puts one element behind those that the list has, in the order of the
/// statements: the element is that of the list, set from the arguments.
pub proof fn adding_puts_elements_behind(
    cx: Context,
    base: Seq<MemberView>,
    i: int,
    l: ListView,
    body: Seq<Spanned<StatementView>>,
    args: Seq<Seq<Spanned<ExprView>>>,
    xs: Seq<ValueView>,
)
    requires
        0 <= i < base.len(),
        settable(base),
        base[i].value == ValueView::List(l),
        base[i].name != "NavigatorTypes"@,
        body.len() == args.len(),
        body.len() == xs.len(),
        forall|j: int|
            0 <= j < body.len() ==> calls(
                (#[trigger] body[j]).value,
                base[i].name,
                "Add"@,
                args[j],
            ),
        forall|j: int|
            0 <= j < xs.len() ==> fields::from_args(cx, *l.element, args[j]) == Ok::<
                ValueView,
                (ValueView, LowerErrorView),
            >(#[trigger] xs[j]),
    ensures
        fields::generic(cx, base, body) == with_value(
            base,
            i,
            ValueView::List(ListView { element: l.element, items: l.items + xs }),
        ),
{
    lemma_methods_differ();
    let name = base[i].name;
    let object = seq![SegmentView::Field(name)];
    assert(object.len() == 1 && object[0] == SegmentView::Field(name));
    assert forall|j: int| 0 <= j < body.len() implies body::cleared(
        (#[trigger] body[j]).value,
    ) is None by {
        assert(calls(body[j].value, name, "Add"@, args[j]));
    }
    lemma_not_cleared(body, body.len() as int);
    assert(body.take(body.len() as int) =~= body);
    assert forall|j: int| 0 <= j < body.len() implies fields::mentions(
        (#[trigger] body[j]).value,
        name,
    ) by {
        assert(calls(body[j].value, name, "Add"@, args[j]));
    }
    lemma_only(cx, base, body, i);
    let r = fields::over(cx, body);
    let clears = PickView::Calls(name, "clear"@);
    let resizes = PickView::Calls(name, "resize"@);
    let adds = PickView::Calls(name, "Add"@);
    assert forall|j: int| 0 <= j < r.entries.len() implies !clears.picks(
        (#[trigger] r.entries[j]).stmt.value,
        r.depth,
    ) && !resizes.picks(r.entries[j].stmt.value, r.depth) && adds.picks(
        r.entries[j].stmt.value,
        r.depth,
    ) && !PickView::Indexed(name).picks(r.entries[j].stmt.value, r.depth) by {
        assert(calls(body[j].value, name, "Add"@, args[j]));
    }
    lemma_none_picked(r, clears, r.entries.len() as int);
    lemma_none_picked(r, resizes, r.entries.len() as int);
    lemma_none_used(r, clears);
    lemma_none_used(r, resizes);
    lemma_all_picked(r, adds, r.entries.len() as int);
    let list = r.call_args(name, "Add"@);
    assert forall|j: int| 0 <= j < list.len() implies fields::from_args(
        cx,
        *l.element,
        (#[trigger] list[j]).args,
    ) == Ok::<ValueView, (ValueView, LowerErrorView)>(xs[j]) by {
        assert(calls(body[j].value, name, "Add"@, args[j]));
        assert(list[j].args == args[j]);
    }
    lemma_added(cx, l, name, list, xs, 0);
    assert(xs.skip(0) =~= xs);
    let behind = r.without(adds);
    lemma_none_picked(behind, PickView::Indexed(name), r.entries.len() as int);
    lemma_none_used(behind, PickView::Indexed(name));
    let end = fields::after(base[i].value, name, r);
    assert(end == behind);
    lemma_unused_none(end.entries, end.entries.len() as int);
    let grown = ListView { items: l.items + xs, ..l };
    assert(r.call_args(name, "clear"@).len() == 0);
    assert(r.call_args(name, "resize"@).len() == 0);
    assert(behind.by_index(name) == Ok::<Seq<reader::IndexGroup>, reader::ReaderErrorView>(
        Seq::empty(),
    ));
    assert(fields::list_named(cx, l, name, r) == Ok::<ListView, (ListView, LowerErrorView)>(grown));
    assert(fields::named(cx, base[i].value, name, r) == Ok::<
        ValueView,
        (ValueView, LowerErrorView),
    >(ValueView::List(grown)));
}

/// An element that is no compound is set from the first argument; without one there is none.
pub proof fn a_plain_element_is_its_first_argument(
    cx: Context,
    v: ValueView,
    args: Seq<Spanned<ExprView>>,
)
    requires
        v is Scalar,
    ensures
        args.len() > 0 ==> fields::from_args(cx, v, args) == construct::from_expr(cx, v, args[0]),
        args.len() == 0 ==> fields::from_args(cx, v, args) is Err,
{
}

proof fn lemma_single(stmt: Spanned<StatementView>)
    ensures
        body::stripped(seq![stmt]) == seq![stmt],
{
    let body = seq![stmt];
    assert(body.len() == 1 && body[0] == stmt);
    reveal_with_fuel(body::standing, 2);
    assert(!body::superseded(body, 0));
    assert(body::stripped(body) =~= body);
}

/// `name.clear();` leaves a list without elements, and a map without entries.
pub proof fn clearing_leaves_nothing(
    cx: Context,
    base: Seq<MemberView>,
    i: int,
    stmt: Spanned<StatementView>,
    args: Seq<Spanned<ExprView>>,
)
    requires
        0 <= i < base.len(),
        settable(base),
        calls(stmt.value, base[i].name, "clear"@, args),
    ensures
        base[i].value matches ValueView::List(l) ==> fields::generic(cx, base, seq![stmt])
            == with_value(
            base,
            i,
            ValueView::List(ListView { element: l.element, items: Seq::empty() }),
        ),
        base[i].value matches ValueView::Mapping(m) ==> fields::generic(cx, base, seq![stmt])
            == with_value(base, i, ValueView::Mapping(MapView { entries: Seq::empty(), ..m })),
{
    lemma_methods_differ();
    let name = base[i].name;
    let body = seq![stmt];
    assert(body.len() == 1 && body[0] == stmt);
    let object = seq![SegmentView::Field(name)];
    assert(object.len() == 1 && object[0] == SegmentView::Field(name));
    lemma_single(stmt);
    lemma_only(cx, base, body, i);
    let r = fields::over(cx, body);
    let clears = PickView::Calls(name, "clear"@);
    assert(r.entries.len() == 1 && r.entries[0].stmt == stmt && !r.entries[0].consumed);
    assert(clears.picks(stmt.value, 0));
    lemma_all_picked(r, clears, 1);
    assert(r.call_args(name, "clear"@).len() == 1);
    let behind = r.without(clears);
    assert(behind.entries[0].consumed);
    lemma_none_picked(behind, PickView::Calls(name, "resize"@), 1);
    lemma_none_picked(behind, PickView::Calls(name, "Add"@), 1);
    lemma_none_picked(behind, PickView::Indexed(name), 1);
    lemma_none_picked(behind, PickView::Keyed(name), 1);
    lemma_none_used(behind, PickView::Calls(name, "resize"@));
    lemma_none_used(behind, PickView::Calls(name, "Add"@));
    lemma_none_used(behind, PickView::Indexed(name));
    lemma_none_used(behind, PickView::Keyed(name));
    lemma_unused_none(behind.entries, 1);
    if let ValueView::List(l) = base[i].value {
        let none = ListView { items: Seq::empty(), ..l };
        assert(behind.call_args(name, "resize"@).len() == 0);
        assert(behind.call_args(name, "Add"@).len() == 0);
        assert(behind.by_index(name) == Ok::<Seq<reader::IndexGroup>, reader::ReaderErrorView>(
            Seq::empty(),
        ));
        assert(fields::list_named(cx, l, name, r) == Ok::<ListView, (ListView, LowerErrorView)>(
            none,
        ));
        assert(fields::after(base[i].value, name, r) == behind);
    }
    if let ValueView::Mapping(m) = base[i].value {
        let none = MapView { entries: Seq::empty(), ..m };
        assert(behind.by_key(name).len() == 0);
        assert(fields::map_named(cx, m, name, r) == Ok::<MapView, (MapView, LowerErrorView)>(none));
        assert(fields::after(base[i].value, name, r) == behind);
    }
}

/// `name.resize(n);` makes a list at least `n` long: the elements that it has stay, and what
/// is missing is filled up. A negative length is an error.
pub proof fn resizing_fills_up(
    cx: Context,
    base: Seq<MemberView>,
    i: int,
    l: ListView,
    stmt: Spanned<StatementView>,
    e: Spanned<ExprView>,
    n: i32,
) -> (items: Seq<ValueView>)
    requires
        0 <= i < base.len(),
        settable(base),
        base[i].value == ValueView::List(l),
        calls(stmt.value, base[i].name, "resize"@, seq![e]),
        eval::as_i32(cx.symbols, e.value) == Ok::<i32, EvalErrorView>(n),
    ensures
        n < 0 ==> fields::generic(cx, base, seq![stmt]) is Err,
        n >= 0 ==> fields::generic(cx, base, seq![stmt]) == with_value(
            base,
            i,
            ValueView::List(ListView { element: l.element, items }),
        ),
        n >= 0 ==> items.len() == (if n > l.items.len() {
            n as int
        } else {
            l.items.len() as int
        }),
        n >= 0 ==> forall|j: int| 0 <= j < l.items.len() ==> #[trigger] items[j] == l.items[j],
        n >= 0 ==> forall|j: int|
            l.items.len() <= j < items.len() ==> #[trigger] items[j] == *l.element,
{
    lemma_methods_differ();
    let name = base[i].name;
    let body = seq![stmt];
    assert(body.len() == 1 && body[0] == stmt);
    let object = seq![SegmentView::Field(name)];
    assert(object.len() == 1 && object[0] == SegmentView::Field(name));
    let args = seq![e];
    assert(args.len() == 1 && args[0] == e);
    lemma_single(stmt);
    lemma_only(cx, base, body, i);
    let r = fields::over(cx, body);
    let clears = PickView::Calls(name, "clear"@);
    let resizes = PickView::Calls(name, "resize"@);
    assert(r.entries.len() == 1 && r.entries[0].stmt == stmt && !r.entries[0].consumed);
    assert(resizes.picks(stmt.value, 0) && !clears.picks(stmt.value, 0));
    lemma_none_picked(r, clears, 1);
    lemma_none_used(r, clears);
    lemma_all_picked(r, resizes, 1);
    let list = r.call_args(name, "resize"@);
    assert(list.len() == 1 && list[0].args == args && list[0].symbols == cx.symbols);
    let behind = r.without(resizes);
    assert(behind.entries[0].consumed);
    lemma_none_picked(behind, PickView::Calls(name, "Add"@), 1);
    lemma_none_picked(behind, PickView::Indexed(name), 1);
    lemma_none_used(behind, PickView::Calls(name, "Add"@));
    lemma_none_used(behind, PickView::Indexed(name));
    lemma_unused_none(behind.entries, 1);
    let grown = l.grown(n as int);
    assert(r.call_args(name, "clear"@).len() == 0);
    assert(behind.call_args(name, "Add"@).len() == 0);
    assert(behind.by_index(name) == Ok::<Seq<reader::IndexGroup>, reader::ReaderErrorView>(
        Seq::empty(),
    ));
    reveal_with_fuel(fields::resized, 2);
    if n >= 0 {
        assert(fields::resized(cx, l, list, 0) == Ok::<ListView, (ListView, LowerErrorView)>(
            grown,
        ));
        assert(fields::list_named(cx, l, name, r) == Ok::<ListView, (ListView, LowerErrorView)>(
            grown,
        ));
        assert(fields::after(base[i].value, name, r) == behind);
        value::growing_keeps_the_elements(l, n as int);
    } else {
        assert(fields::resized(cx, l, list, 0) is Err);
        assert(fields::list_named(cx, l, name, r) is Err);
    }
    grown.items
}

// ── Elements by index and entries by key ─────────────────────────────────────

/// The statement `name[at] e;`.
pub open spec fn puts(
    s: StatementView,
    name: Seq<char>,
    at: Spanned<ExprView>,
    e: Spanned<ExprView>,
) -> bool {
    s == (StatementView::Field {
        path: seq![SegmentView::Field(name), SegmentView::Index(at)],
        expr: e,
    })
}

proof fn lemma_value_of_group(r: ReaderView, stmt: Spanned<StatementView>, name: Seq<char>, at: Spanned<ExprView>, e: Spanned<ExprView>)
    requires
        puts(stmt.value, name, at, e),
        r.depth == 0,
    ensures
        ({
            let g = r.below(seq![stmt], 2);
            &&& g.any() == Ok::<Spanned<ExprView>, reader::ReaderErrorView>(e)
            &&& g.without(PickView::Any).finished() is Ok
        }),
{
    let one = seq![stmt];
    assert(one.len() == 1 && one[0] == stmt);
    let path = seq![SegmentView::Field(name), SegmentView::Index(at)];
    assert(path.len() == 2);
    let g = r.below(one, 2);
    assert(g.entries.len() == 1 && g.entries[0].stmt == stmt && !g.entries[0].consumed);
    assert(PickView::Any.picks(stmt.value, 2));
    lemma_all_picked(g, PickView::Any, 1);
    let rest = g.without(PickView::Any);
    assert(rest.entries.len() == 1 && rest.entries[0].consumed);
    lemma_unused_none(rest.entries, 1);
}

/// `name[k] e;` sets element `k` of a list, which grows to hold it, and no other element.
pub proof fn an_element_is_set_by_its_index(
    cx: Context,
    base: Seq<MemberView>,
    i: int,
    l: ListView,
    stmt: Spanned<StatementView>,
    at: Spanned<ExprView>,
    e: Spanned<ExprView>,
    k: usize,
    x: ValueView,
) -> (items: Seq<ValueView>)
    requires
        0 <= i < base.len(),
        settable(base),
        base[i].value == ValueView::List(l),
        puts(stmt.value, base[i].name, at, e),
        eval::as_usize(cx.symbols, at.value) == Ok::<usize, EvalErrorView>(k),
        *l.element is Scalar,
        k < l.items.len() ==> l.items[k as int] is Scalar,
        construct::from_expr(
            cx,
            if k < l.items.len() {
                l.items[k as int]
            } else {
                *l.element
            },
            e,
        ) == Ok::<ValueView, (ValueView, LowerErrorView)>(x),
    ensures
        fields::generic(cx, base, seq![stmt]) == with_value(
            base,
            i,
            ValueView::List(ListView { element: l.element, items }),
        ),
        items.len() == (if k < l.items.len() {
            l.items.len() as int
        } else {
            k + 1
        }),
        items[k as int] == x,
        forall|j: int|
            0 <= j < l.items.len() && j != k ==> #[trigger] items[j] == l.items[j],
        forall|j: int|
            l.items.len() <= j < items.len() && j != k ==> #[trigger] items[j] == *l.element,
{
    let name = base[i].name;
    let body = seq![stmt];
    assert(body.len() == 1 && body[0] == stmt);
    let path = seq![SegmentView::Field(name), SegmentView::Index(at)];
    assert(path.len() == 2 && path[0] == SegmentView::Field(name) && path[1] == SegmentView::Index(
        at,
    ));
    lemma_single(stmt);
    lemma_only(cx, base, body, i);
    let r = fields::over(cx, body);
    assert(r.entries.len() == 1 && r.entries[0].stmt == stmt && !r.entries[0].consumed);
    let clears = PickView::Calls(name, "clear"@);
    let resizes = PickView::Calls(name, "resize"@);
    let adds = PickView::Calls(name, "Add"@);
    let indexed = PickView::Indexed(name);
    assert(indexed.picks(stmt.value, 0));
    lemma_none_picked(r, clears, 1);
    lemma_none_picked(r, resizes, 1);
    lemma_none_picked(r, adds, 1);
    lemma_none_used(r, clears);
    lemma_none_used(r, resizes);
    lemma_none_used(r, adds);
    lemma_all_picked(r, indexed, 1);
    let stmts = r.all(indexed);
    assert(stmts =~= seq![stmt]);
    reveal_with_fuel(reader::grouped, 2);
    reveal_with_fuel(reader::add_indexed, 2);
    let none: Seq<reader::IndexGroup> = Seq::empty();
    let group = reader::IndexGroup { index: k, stmts: seq![stmt] };
    assert(none.insert(0, group) =~= seq![group]);
    let groups = seq![group];
    assert(groups.len() == 1 && groups[0] == group);
    assert(r.by_index(name) == Ok::<Seq<reader::IndexGroup>, reader::ReaderErrorView>(groups));
    lemma_value_of_group(r, stmt, name, at, e);
    let g = r.below(seq![stmt], 2);
    let grown = l.grown(k + 1);
    value::growing_keeps_the_elements(l, k + 1);
    assert(grown.items[k as int] is Scalar);
    assert(fields::from_group(cx, grown.items[k as int], g) == Ok::<
        ValueView,
        (ValueView, LowerErrorView),
    >(x));
    let set = ListView { items: grown.items.update(k as int, x), ..l };
    assert(fields::placed(cx, l, k as int, g) == Ok::<ListView, (ListView, LowerErrorView)>(set));
    assert(fields::indexed(cx, set, name, r, 1) == Ok::<ListView, (ListView, LowerErrorView)>(
        set,
    ));
    assert(fields::indexed(cx, l, name, r, 0) == Ok::<ListView, (ListView, LowerErrorView)>(set));
    assert(r.call_args(name, "clear"@).len() == 0);
    assert(r.call_args(name, "resize"@).len() == 0);
    assert(r.call_args(name, "Add"@).len() == 0);
    assert(fields::list_named(cx, l, name, r) == Ok::<ListView, (ListView, LowerErrorView)>(set));
    let behind = r.without(indexed);
    assert(behind.entries[0].consumed);
    lemma_unused_none(behind.entries, 1);
    assert(fields::after(base[i].value, name, r) == behind);
    set.items
}

/// `name[key] e;` sets what a map holds for the key, and leaves what it holds for others.
pub proof fn an_entry_is_set_by_its_key(
    cx: Context,
    base: Seq<MemberView>,
    i: int,
    m: MapView,
    stmt: Spanned<StatementView>,
    at: Spanned<ExprView>,
    e: Spanned<ExprView>,
    key: ValueView,
    x: ValueView,
) -> (entries: Seq<PairView>)
    requires
        0 <= i < base.len(),
        settable(base),
        base[i].value == ValueView::Mapping(m),
        puts(stmt.value, base[i].name, at, e),
        *m.value is Scalar,
        value::distinct_keys(m.entries),
        construct::from_expr(cx, *m.key, at) == Ok::<ValueView, (ValueView, LowerErrorView)>(key),
        construct::from_expr(cx, *m.value, e) == Ok::<ValueView, (ValueView, LowerErrorView)>(x),
    ensures
        fields::generic(cx, base, seq![stmt]) == with_value(
            base,
            i,
            ValueView::Mapping(MapView { entries, ..m }),
        ),
        value::distinct_keys(entries),
        value::held(entries, key) == Some(x),
        forall|other: ValueView|
            other != key ==> #[trigger] value::held(entries, other) == value::held(
                m.entries,
                other,
            ),
{
    let name = base[i].name;
    let body = seq![stmt];
    assert(body.len() == 1 && body[0] == stmt);
    let path = seq![SegmentView::Field(name), SegmentView::Index(at)];
    assert(path.len() == 2 && path[0] == SegmentView::Field(name) && path[1] == SegmentView::Index(
        at,
    ));
    lemma_single(stmt);
    lemma_only(cx, base, body, i);
    let r = fields::over(cx, body);
    assert(r.entries.len() == 1 && r.entries[0].stmt == stmt && !r.entries[0].consumed);
    let clears = PickView::Calls(name, "clear"@);
    let keyed = PickView::Keyed(name);
    assert(keyed.picks(stmt.value, 0));
    lemma_none_picked(r, clears, 1);
    lemma_none_used(r, clears);
    lemma_all_picked(r, keyed, 1);
    let stmts = r.all(keyed);
    assert(stmts =~= seq![stmt]);
    reveal_with_fuel(reader::keyed_groups, 2);
    reveal_with_fuel(reader::add_keyed, 2);
    let none: Seq<reader::KeyGroup> = Seq::empty();
    let group = reader::KeyGroup { key: at, stmts: seq![stmt] };
    assert(none.push(group) =~= seq![group]);
    let groups = seq![group];
    assert(groups.len() == 1 && groups[0] == group);
    assert(r.by_key(name) == groups);
    lemma_value_of_group(r, stmt, name, at, e);
    let g = r.below(seq![stmt], 2);
    assert(fields::from_group(cx, *m.value, g) == Ok::<ValueView, (ValueView, LowerErrorView)>(x));
    let set = m.put(key, x);
    assert(fields::keyed(cx, set, name, r, 1) == Ok::<MapView, (MapView, LowerErrorView)>(set));
    assert(fields::keyed(cx, m, name, r, 0) == Ok::<MapView, (MapView, LowerErrorView)>(set));
    assert(r.call_args(name, "clear"@).len() == 0);
    assert(fields::map_named(cx, m, name, r) == Ok::<MapView, (MapView, LowerErrorView)>(set));
    let behind = r.without(keyed);
    assert(behind.entries[0].consumed);
    lemma_unused_none(behind.entries, 1);
    assert(fields::after(base[i].value, name, r) == behind);
    value::a_map_holds_a_key_once(m, key, x);
    set.entries
}

/// A map that is kept in order stays in ascending order of key.
pub proof fn ordered_maps_stay_in_order(m: MapView, key: ValueView, x: ValueView)
    requires
        m.ordered,
        forall|a: int, b: int|
            0 <= a < b < m.entries.len() ==> value::number((#[trigger] m.entries[a]).key)
                <= value::number((#[trigger] m.entries[b]).key),
    ensures
        ({
            let after = m.put(key, x).entries;
            forall|a: int, b: int|
                0 <= a < b < after.len() ==> value::number((#[trigger] after[a]).key)
                    <= value::number((#[trigger] after[b]).key)
        }),
{
    let after = m.put(key, x).entries;
    lemma_key_place(m.entries, key, 0);
    lemma_key_above(m.entries, key, 0);
    let i = value::place_of(m.entries, key, 0);
    let p = value::place_above(m.entries, key, 0);
    assert forall|a: int, b: int| 0 <= a < b < after.len() implies value::number(
        (#[trigger] after[a]).key,
    ) <= value::number((#[trigger] after[b]).key) by {
        if i < m.entries.len() {
            assert(after[a].key == m.entries[a].key && after[b].key == m.entries[b].key);
        } else {
            if a < p {
                assert(after[a] == m.entries[a]);
            } else if a > p {
                assert(after[a] == m.entries[a - 1]);
            }
            if b < p {
                assert(after[b] == m.entries[b]);
            } else if b > p {
                assert(after[b] == m.entries[b - 1]);
                if p < b - 1 {
                    assert(value::number(m.entries[p].key) <= value::number(m.entries[b - 1].key));
                }
            }
        }
    }
}

proof fn lemma_key_place(entries: Seq<PairView>, key: ValueView, k: int)
    requires
        0 <= k <= entries.len(),
    ensures
        k <= value::place_of(entries, key, k) <= entries.len(),
        value::place_of(entries, key, k) < entries.len() ==> entries[value::place_of(
            entries,
            key,
            k,
        )].key == key,
    decreases entries.len() - k,
{
    if k < entries.len() && entries[k].key != key {
        lemma_key_place(entries, key, k + 1);
    }
}

proof fn lemma_key_above(entries: Seq<PairView>, key: ValueView, k: int)
    requires
        0 <= k <= entries.len(),
    ensures
        k <= value::place_above(entries, key, k) <= entries.len(),
        forall|j: int|
            k <= j < value::place_above(entries, key, k) ==> value::number(
                (#[trigger] entries[j]).key,
            ) <= value::number(key),
        value::place_above(entries, key, k) < entries.len() ==> value::number(
            entries[value::place_above(entries, key, k)].key,
        ) > value::number(key),
    decreases entries.len() - k,
{
    if k < entries.len() && value::number(entries[k].key) <= value::number(key) {
        lemma_key_above(entries, key, k + 1);
    }
}

} // verus!
