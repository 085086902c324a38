//! Evaluation of headers.

use vstd::prelude::*;

use crate::text::ast::{EnumExprView, EnumView, ItemView, VariantView};
use crate::text::base::{Span, Spanned};
use crate::text::symbols;
use crate::text::symbols::Evaluation;

verus! {

// ── Conditionals ─────────────────────────────────────────────────────────────

proof fn lemma_one_item(st: Evaluation, x: ItemView)
    ensures
        symbols::items_from(st, seq![x], 0) == symbols::item(st, x),
{
    let v = seq![x];
    assert(v.len() == 1 && v[0] == x);
    reveal_with_fuel(symbols::items_from, 2);
}

/// The compiler runs as on Windows: `#ifdef _WINDOWS a #else b #endif` binds what `a` binds,
/// and `#ifndef _WINDOWS a #else b #endif` what `b` does. Every other name is undefined:
/// `#ifndef N a #else b #endif` binds what `a` binds, and `#ifdef N a #else b #endif` what `b`
/// does. A missing branch binds nothing.
pub proof fn only_the_windows_branch_counts(
    st: Evaluation,
    name: Seq<char>,
    a: Seq<ItemView>,
    b: Option<Seq<ItemView>>,
)
    ensures
        ({
            let ifdef = ItemView::Conditional {
                condition: name,
                if_branch: a,
                else_branch: b,
                inverted: false,
            };
            let ifndef = ItemView::Conditional {
                condition: name,
                if_branch: a,
                else_branch: b,
                inverted: true,
            };
            let first = symbols::items_from(st, a, 0);
            let second = match b {
                Some(items) => symbols::items_from(st, items, 0),
                None => st,
            };
            &&& name == "_WINDOWS"@ ==> symbols::items_from(st, seq![ifdef], 0) == first
                && symbols::items_from(st, seq![ifndef], 0) == second
            &&& name != "_WINDOWS"@ ==> symbols::items_from(st, seq![ifdef], 0) == second
                && symbols::items_from(st, seq![ifndef], 0) == first
        }),
{
    lemma_one_item(
        st,
        ItemView::Conditional { condition: name, if_branch: a, else_branch: b, inverted: false },
    );
    lemma_one_item(
        st,
        ItemView::Conditional { condition: name, if_branch: a, else_branch: b, inverted: true },
    );
}

/// An include guard is transparent: a header that is wrapped in `#ifndef GUARD`,
/// `#define GUARD` and `#endif` binds what its items bind.
pub proof fn include_guards_are_transparent(
    st: Evaluation,
    guard: Seq<char>,
    d: crate::text::ast::DefineView,
    items: Seq<ItemView>,
)
    requires
        guard != "_WINDOWS"@,
        d.value is None,
        st.error is None,
    ensures
        symbols::items_from(
            st,
            seq![
                ItemView::Conditional {
                    condition: guard,
                    if_branch: seq![ItemView::Define(d)] + items,
                    else_branch: None,
                    inverted: true,
                },
            ],
            0,
        ) == symbols::items_from(st, items, 0),
{
    let inner = seq![ItemView::Define(d)] + items;
    only_the_windows_branch_counts(st, guard, inner, None);
    reveal_with_fuel(symbols::item, 2);
    lemma_shifted_list(st, ItemView::Define(d), items, 0);
    assert(inner[0] == ItemView::Define(d));
    assert(symbols::item(st, inner[0]) == st);
    assert(symbols::items_from(st, inner, 0) == symbols::items_from(st, inner, 1));
}

proof fn lemma_shifted_list(st: Evaluation, x: ItemView, items: Seq<ItemView>, k: int)
    requires
        0 <= k <= items.len(),
    ensures
        symbols::items_from(st, seq![x] + items, k + 1) == symbols::items_from(st, items, k),
    decreases items.len() - k,
{
    let v = seq![x] + items;
    if k < items.len() {
        assert(v[k + 1] == items[k]);
        lemma_shifted_list(symbols::item(st, items[k]), x, items, k + 1);
    }
}

/// A namespace binds what its items bind, and what is no declaration binds nothing.
pub proof fn namespaces_are_transparent(
    st: Evaluation,
    name: Seq<char>,
    items: Seq<ItemView>,
    d: Spanned<crate::text::ast::DefinitionView>,
    place: Span,
)
    ensures
        symbols::items_from(st, seq![ItemView::Namespace { name, items }], 0)
            == symbols::items_from(st, items, 0),
        symbols::items_from(st, seq![ItemView::Definition(d)], 0) == st,
        symbols::items_from(st, seq![ItemView::PragmaOnce(place)], 0) == st,
{
    lemma_one_item(st, ItemView::Namespace { name, items });
    lemma_one_item(st, ItemView::Definition(d));
    lemma_one_item(st, ItemView::PragmaOnce(place));
}

// ── Enums ────────────────────────────────────────────────────────────────────

/// `#define NAME n` binds the name to the number, and leaves every other name as it is.
pub proof fn defines_bind_their_name(
    st: Evaluation,
    d: crate::text::ast::DefineView,
    other: Seq<char>,
)
    requires
        st.error is None,
        d.value is Some,
        other != d.name.value,
    ensures
        ({
            let end = symbols::items_from(st, seq![ItemView::Define(d)], 0);
            &&& end.error is None
            &&& end.table.dom().contains(d.name.value)
            &&& end.table[d.name.value] == d.value->0
            &&& end.table.dom().contains(other) == st.table.dom().contains(other)
            &&& end.table.dom().contains(other) ==> end.table[other] == st.table[other]
            &&& end.redefined.len() == st.redefined.len() + (if st.table.dom().contains(
                d.name.value,
            ) {
                1int
            } else {
                0int
            })
        }),
{
    lemma_one_item(st, ItemView::Define(d));
}

proof fn lemma_variants_keep(
    st: Evaluation,
    v: Seq<VariantView>,
    k: int,
    last: Option<i64>,
    name: Seq<char>,
)
    requires
        0 <= k,
        forall|j: int| k <= j < v.len() ==> (#[trigger] v[j]).name.value != name,
    ensures
        ({
            let end = symbols::variants_from(st, v, k, last);
            &&& end.table.dom().contains(name) == st.table.dom().contains(name)
            &&& st.table.dom().contains(name) ==> end.table[name] == st.table[name]
        }),
    decreases v.len() - k,
{
    if k < v.len() {
        let value = match v[k].value {
            Some(e) => symbols::enum_value(st.table, e),
            None => Ok(symbols::implied_value(last)),
        };
        if value is Ok {
            let n = value->Ok_0;
            assert(v[k].name.value != name);
            lemma_variants_keep(symbols::define(st, v[k].name, n), v, k + 1, Some(n), name);
        }
    }
}

proof fn lemma_variant_value(
    st: Evaluation,
    v: Seq<VariantView>,
    k: int,
    last: Option<i64>,
    i: int,
)
    requires
        0 <= k <= i < v.len(),
        st.error is None,
        symbols::variants_from(st, v, k, last).error is None,
        forall|a: int, b: int|
            k <= a < b < v.len() ==> (#[trigger] v[a]).name.value != (#[trigger] v[b]).name.value,
    ensures
        ({
            let end = symbols::variants_from(st, v, k, last).table;
            &&& end.dom().contains(v[i].name.value)
            &&& v[i].value is None && i > k && end[v[i - 1].name.value] < i64::MAX
                ==> end[v[i].name.value] == end[v[i - 1].name.value] + 1
            &&& v[i].value is None && i == k && last is None ==> end[v[i].name.value] == 0
            &&& v[i].value is None && i == k && last is Some && last->0 < i64::MAX
                ==> end[v[i].name.value] == last->0 + 1
            &&& v[i].value matches Some(EnumExprView::Int(n)) ==> end[v[i].name.value] == n.value
        }),
    decreases v.len() - k,
{
    let value = match v[k].value {
        Some(e) => symbols::enum_value(st.table, e),
        None => Ok(symbols::implied_value(last)),
    };
    assert(value is Ok);
    let n = value->Ok_0;
    let next = symbols::define(st, v[k].name, n);
    let end = symbols::variants_from(st, v, k, last).table;
    assert(end == symbols::variants_from(next, v, k + 1, Some(n)).table);
    lemma_variants_keep(next, v, k + 1, Some(n), v[k].name.value);
    assert(end[v[k].name.value] == n);
    if i > k {
        lemma_variant_value(next, v, k + 1, Some(n), i);
        lemma_variant_value(next, v, k + 1, Some(n), k + 1);
    }
}

/// The variants of an enum are numbered on from each other: the first one without a number is
/// 0, one behind another is one more, and one with a number has that number.
pub proof fn variants_count_on(st: Evaluation, e: EnumView, i: int)
    requires
        st.error is None,
        0 <= i < e.variants.len(),
        forall|a: int, b: int|
            0 <= a < b < e.variants.len() ==> (#[trigger] e.variants[a]).name.value != (
            #[trigger] e.variants[b]).name.value,
        symbols::items_from(st, seq![ItemView::Enum(e)], 0).error is None,
    ensures
        ({
            let end = symbols::items_from(st, seq![ItemView::Enum(e)], 0).table;
            let v = e.variants[i];
            &&& end.dom().contains(v.name.value)
            &&& v.value is None && i == 0 ==> end[v.name.value] == 0
            &&& v.value is None && i > 0 && end[e.variants[i - 1].name.value] < i64::MAX
                ==> end[v.name.value] == end[e.variants[i - 1].name.value] + 1
            &&& v.value matches Some(EnumExprView::Int(n)) ==> end[v.name.value] == n.value
        }),
{
    lemma_one_item(st, ItemView::Enum(e));
    lemma_variant_value(st, e.variants, 0, None, i);
}

/// An enum binds no name but those of its variants.
pub proof fn enums_bind_their_variants_only(st: Evaluation, e: EnumView, name: Seq<char>)
    requires
        forall|j: int| 0 <= j < e.variants.len() ==> (#[trigger] e.variants[j]).name.value != name,
    ensures
        ({
            let end = symbols::items_from(st, seq![ItemView::Enum(e)], 0).table;
            &&& end.dom().contains(name) == st.table.dom().contains(name)
            &&& st.table.dom().contains(name) ==> end[name] == st.table[name]
        }),
{
    lemma_one_item(st, ItemView::Enum(e));
    lemma_variants_keep(st, e.variants, 0, None, name);
}

/// A declared number is itself, a name is what it is bound to, `a << b` is shifted and `a | b`
/// united. A name that is not bound, or a shift beyond 63, is an error.
pub proof fn declared_values_are_computed(
    table: Map<Seq<char>, i64>,
    n: Spanned<i64>,
    s: Spanned<Seq<char>>,
    a: EnumExprView,
    b: EnumExprView,
)
    ensures
        symbols::enum_value(table, EnumExprView::Int(n)) == Ok::<
            i64,
            Spanned<symbols::SymbolErrorView>,
        >(n.value),
        table.dom().contains(s.value) ==> symbols::enum_value(table, EnumExprView::Ident(s))
            == Ok::<i64, Spanned<symbols::SymbolErrorView>>(table[s.value]),
        !table.dom().contains(s.value) ==> symbols::enum_value(table, EnumExprView::Ident(s))
            == Err::<i64, Spanned<symbols::SymbolErrorView>>(
            Spanned { span: s.span, value: symbols::SymbolErrorView::UnknownSymbol(s.value) },
        ),
        (symbols::enum_value(table, a) is Ok && symbols::enum_value(table, b) is Ok) ==> ({
            let x = symbols::enum_value(table, a)->Ok_0;
            let y = symbols::enum_value(table, b)->Ok_0;
            &&& symbols::enum_value(table, EnumExprView::BitOr(seq![a, b])) == Ok::<
                i64,
                Spanned<symbols::SymbolErrorView>,
            >(x | y)
            &&& 0 <= y < 64 ==> symbols::enum_value(table, EnumExprView::Shift(seq![a, b]))
                == Ok::<i64, Spanned<symbols::SymbolErrorView>>(x << y)
            &&& !(0 <= y < 64) ==> (symbols::enum_value(
                table,
                EnumExprView::Shift(seq![a, b]),
            ) matches Err(e) && e.value == symbols::SymbolErrorView::InvalidShift(y))
        }),
{
    let v = seq![a, b];
    assert(v.len() == 2 && v[0] == a && v[1] == b);
    if symbols::enum_value(table, a) is Ok && symbols::enum_value(table, b) is Ok {
        let x = symbols::enum_value(table, a)->Ok_0;
        let y = symbols::enum_value(table, b)->Ok_0;
        assert(0 | x == x) by (bit_vector);
        let first = 0 | x;
        assert(symbols::enum_value(table, EnumExprView::BitOr(v)) == symbols::united(
            table,
            v,
            0,
            0,
        ));
        assert(symbols::united(table, v, 0, 0) == symbols::united(table, v, 1, first));
        assert(symbols::united(table, v, 1, first) == symbols::united(table, v, 2, first | y));
        assert(symbols::united(table, v, 2, first | y) == Ok::<
            i64,
            Spanned<symbols::SymbolErrorView>,
        >(first | y));
        assert(symbols::enum_value(table, EnumExprView::Shift(v)) == symbols::shifted(
            table,
            v,
            1,
            x,
        ));
        if 0 <= y < 64 {
            assert(symbols::shifted(table, v, 1, x) == symbols::shifted(table, v, 2, x << y));
            assert(symbols::shifted(table, v, 2, x << y) == Ok::<
                i64,
                Spanned<symbols::SymbolErrorView>,
            >(x << y));
        }
    }
}

} // verus!
