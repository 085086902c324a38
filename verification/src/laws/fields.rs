//! The fields of a definition and the statements that set them.

use vstd::prelude::*;

use super::expressions;
use super::numbers;
use crate::lower::body;
use crate::lower::construct;
use crate::lower::env::{Context, LowerErrorView};
use crate::lower::fields;
use crate::reader;
use crate::reader::{PickView, ReaderView};
use crate::single::Single;
use crate::strings;
use crate::text::ast::{ExprView, SegmentView, StatementView};
use crate::text::base::Spanned;
use crate::value::{MemberView, ScalarView, ValueView};

verus! {

/// The statement `name e;`.
pub open spec fn assigns(s: StatementView, name: Seq<char>, e: Spanned<ExprView>) -> bool {
    s == (StatementView::Field { path: seq![SegmentView::Field(name)], expr: e })
}

/// Whether the fields of a type have different names, and each can be set.
pub open spec fn settable(base: Seq<MemberView>) -> bool {
    &&& forall|i: int, j: int|
        0 <= i < j < base.len() ==> (#[trigger] base[i]).name != (#[trigger] base[j]).name
    &&& forall|i: int|
        0 <= i < base.len() ==> !((#[trigger] base[i]).value is Complex) && !(
        base[i].value is Array)
}

/// What lowering gives: the fields, and the statements that set none.
pub type Fields = Result<(Seq<MemberView>, Seq<Spanned<StatementView>>), LowerErrorView>;

/// The fields with field `i` set, and no statement left.
pub open spec fn with_field(base: Seq<MemberView>, i: int, x: ScalarView) -> Fields {
    Ok((
        base.update(i, MemberView { name: base[i].name, value: ValueView::Scalar(x) }),
        Seq::empty(),
    ))
}

proof fn lemma_walk_one(
    cx: Context,
    v: Seq<MemberView>,
    k: int,
    r: ReaderView,
    i: int,
    e: Spanned<ExprView>,
)
    requires
        0 <= k <= v.len(),
        0 <= i < v.len(),
        settable(v),
        v[i].value is Scalar,
        r.depth == 0,
        r.entries.len() == 1,
        assigns(r.entries[0].stmt.value, v[i].name, e),
        r.entries[0].consumed == (i < k),
    ensures
        i < k ==> fields::walk(cx, v, k, r) == Ok::<
            Seq<MemberView>,
            (Seq<MemberView>, LowerErrorView),
        >(v),
        i >= k ==> (match fields::scalar_named(cx, v[i].value->Scalar_0, e) {
            Ok(x) => fields::walk(cx, v, k, r) == Ok::<
                Seq<MemberView>,
                (Seq<MemberView>, LowerErrorView),
            >(v.update(i, MemberView { name: v[i].name, value: ValueView::Scalar(x) })),
            Err(x) => fields::walk(cx, v, k, r) matches Err((_, y)) && y == x,
        }),
        ({
            let end = fields::walk_after(v, k, r);
            end.entries.len() == 1 && end.entries[0].consumed
        }),
    decreases v.len() - k,
{
    let stmt = r.entries[0].stmt;
    let path = seq![SegmentView::Field(v[i].name)];
    assert(path.len() == 1 && path[0] == SegmentView::Field(v[i].name));
    if k < v.len() {
        let rest = fields::after(v[k].value, v[k].name, r);
        fields::lemma_after_statements(v[k].value, v[k].name, r);
        if k == i {
            let leaf = PickView::Leaf(v[i].name);
            assert(leaf.picks(stmt.value, 0));
            reveal_with_fuel(reader::picked, 2);
            assert(r.all(leaf) =~= seq![stmt]);
            assert(r.value(leaf) == Some(e));
            assert(rest.entries[0].consumed);
            if let Ok(x) = fields::scalar_named(cx, v[i].value->Scalar_0, e) {
                let next = construct::with_value(v, k, ValueView::Scalar(x));
                assert(next =~= v.update(
                    i,
                    MemberView { name: v[i].name, value: ValueView::Scalar(x) },
                ));
                lemma_walk_one(cx, next, k + 1, rest, i, e);
                lemma_walk_one(cx, v, k + 1, rest, i, e);
            } else {
                lemma_walk_one(cx, v, k + 1, rest, i, e);
            }
        } else {
            assert(v[k].name != v[i].name) by {
                if k < i {
                    assert(v[k].name != v[i].name);
                } else {
                    assert(v[i].name != v[k].name);
                }
            }
            assert(fields::untouched(r, v[k].name)) by {
                assert(!fields::mentions(r.entries[0].stmt.value, v[k].name));
            }
            fields::lemma_untouched(cx, v[k].value, v[k].name, r);
            assert(construct::with_value(v, k, v[k].value) =~= v);
            lemma_other_field(v[k].value, v[k].name, r, v[i].name, e);
            lemma_walk_one(cx, v, k + 1, rest, i, e);
        }
    }
}

proof fn lemma_other_field(
    v: ValueView,
    name: Seq<char>,
    r: ReaderView,
    other: Seq<char>,
    e: Spanned<ExprView>,
)
    requires
        name != other,
        r.depth == 0,
        r.entries.len() == 1,
        assigns(r.entries[0].stmt.value, other, e),
    ensures
        fields::after(v, name, r).entries[0].consumed == r.entries[0].consumed,
        fields::after(v, name, r).symbols == r.symbols,
{
    let path = seq![SegmentView::Field(other)];
    assert(path.len() == 1 && path[0] == SegmentView::Field(other));
}

proof fn lemma_one(
    cx: Context,
    base: Seq<MemberView>,
    i: int,
    stmt: Spanned<StatementView>,
    e: Spanned<ExprView>,
)
    requires
        0 <= i < base.len(),
        settable(base),
        base[i].value is Scalar,
        assigns(stmt.value, base[i].name, e),
    ensures
        fields::generic(cx, base, seq![stmt]) == (match fields::scalar_named(
            cx,
            base[i].value->Scalar_0,
            e,
        ) {
            Ok(x) => with_field(base, i, x),
            Err(x) => Err(x),
        }),
{
    let body = seq![stmt];
    assert(body.len() == 1 && body[0] == stmt);
    reveal_with_fuel(body::standing, 2);
    assert(!body::superseded(body, 0));
    assert(body::stripped(body) =~= body);
    let r = fields::over(cx, body);
    assert(r.entries.len() == 1 && r.entries[0].stmt == stmt);
    lemma_walk_one(cx, base, 0, r, i, e);
    let end = fields::walk_after(base, 0, r);
    reveal_with_fuel(reader::unused, 2);
    assert(end.left_over() =~= Seq::<Spanned<StatementView>>::empty());
}

// ── One statement ────────────────────────────────────────────────────────────

/// The statement of a real sets a real field to the single-precision number nearest to the
/// decimal value of the literal, its fraction included, and sets nothing else.
pub proof fn a_real_field_holds_the_literal(
    cx: Context,
    base: Seq<MemberView>,
    i: int,
    stmt: Spanned<StatementView>,
    e: Spanned<ExprView>,
    sign: Option<char>,
    whole: Seq<char>,
    fraction: Seq<char>,
    suffix: nat,
) -> (x: Single)
    requires
        0 <= i < base.len(),
        settable(base),
        base[i].value matches ValueView::Scalar(s) && s is Single,
        assigns(stmt.value, base[i].name, e),
        numbers::digits(whole),
        numbers::digits(fraction),
        whole.len() > 0 || fraction.len() > 0,
        sign is Some ==> sign->0 == '-' || sign->0 == '+',
        e.value == ExprView::Number(
            numbers::real_text(sign, whole, Some(fraction)) + Seq::new(suffix, |j: int| 'f'),
        ),
    ensures
        fields::generic(cx, base, seq![stmt]) == with_field(base, i, ScalarView::Single(x)),
        numbers::rounds(
            x,
            sign == Some('-'),
            strings::decimal_value(whole + fraction),
            vstd::arithmetic::power::pow(10, fraction.len()) as nat,
        ),
{
    lemma_one(cx, base, i, stmt, e);
    expressions::real_literals_read_to_the_nearest(cx.symbols, sign, whole, fraction, suffix)
}

/// The statement of an integer sets a number to that integer, and nothing else; a real field
/// holds the number nearest to it. An integer that the field has no room for is an error.
pub proof fn a_number_field_holds_the_literal(
    cx: Context,
    base: Seq<MemberView>,
    i: int,
    stmt: Spanned<StatementView>,
    e: Spanned<ExprView>,
    n: int,
) -> (x: Single)
    requires
        0 <= i < base.len(),
        settable(base),
        base[i].value is Scalar,
        assigns(stmt.value, base[i].name, e),
        i64::MIN <= n <= i64::MAX,
        e.value == ExprView::Number(strings::int_text(n)),
    ensures
        numbers::rounds(
            x,
            n < 0,
            if n < 0 {
                (-n) as nat
            } else {
                n as nat
            },
            1,
        ),
        ({
            let r = fields::generic(cx, base, seq![stmt]);
            let fits = -0x8000_0000 <= n <= 0x7fff_ffff;
            match base[i].value->Scalar_0 {
                ScalarView::Single(_) => r == with_field(base, i, ScalarView::Single(x)),
                ScalarView::I32(_) => if fits {
                    r == with_field(base, i, ScalarView::I32(n as i32))
                } else {
                    r is Err
                },
                ScalarView::I16(_) => if -0x8000 <= n <= 0x7fff {
                    r == with_field(base, i, ScalarView::I16(n as i16))
                } else {
                    r is Err
                },
                ScalarView::I8(_) => if -0x80 <= n <= 0x7f {
                    r == with_field(base, i, ScalarView::I8(n as i8))
                } else {
                    r is Err
                },
                ScalarView::U32(_) => if 0 <= n <= 0xffff_ffff {
                    r == with_field(base, i, ScalarView::U32(n as u32))
                } else {
                    r is Err
                },
                ScalarView::U16(_) => if 0 <= n <= 0xffff {
                    r == with_field(base, i, ScalarView::U16(n as u16))
                } else {
                    r is Err
                },
                ScalarView::U8(_) => if 0 <= n <= 0xff {
                    r == with_field(base, i, ScalarView::U8(n as u8))
                } else {
                    r is Err
                },
                ScalarView::U64(_) => if 0 <= n <= 0x7fff_ffff {
                    r == with_field(base, i, ScalarView::U64(n as u64))
                } else if fits {
                    r == with_field(base, i, ScalarView::U64((n as i32) as u64))
                } else {
                    r is Err
                },
                ScalarView::Flags(_) => if fits {
                    r == with_field(base, i, ScalarView::Flags(n as i32))
                } else {
                    r is Err
                },
                ScalarView::Enum { allowed, .. } => if fits && allowed.contains(n as i32) {
                    r == with_field(base, i, ScalarView::Enum { allowed, value: n as i32 })
                } else {
                    r is Err
                },
                ScalarView::DefString(_) => if fits {
                    r == with_field(base, i, ScalarView::DefString(n as i32))
                } else {
                    r is Err
                },
                ScalarView::DefIndex(_) => if fits {
                    r == with_field(base, i, ScalarView::DefIndex(n as i32))
                } else {
                    r is Err
                },
                ScalarView::Bool(_) => r is Err,
                ScalarView::Str(_) => r is Err,
                ScalarView::WStr(_) => r is Err,
                ScalarView::PString(_) => r is Err,
            }
        }),
{
    lemma_one(cx, base, i, stmt, e);
    expressions::integer_literals_read_as_written(cx.symbols, n)
}

/// The statement of a string sets a string to it. A field for the offset of a string holds
/// the offset, and -1 for the empty one; a field for a definition holds its index, and 0 for
/// the empty name. A name that is not known is an error, and so is a string for a number.
pub proof fn a_string_field_holds_the_literal(
    cx: Context,
    base: Seq<MemberView>,
    i: int,
    stmt: Spanned<StatementView>,
    e: Spanned<ExprView>,
    s: Seq<char>,
)
    requires
        0 <= i < base.len(),
        settable(base),
        base[i].value is Scalar,
        assigns(stmt.value, base[i].name, e),
        e.value == ExprView::String(s),
    ensures
        ({
            let r = fields::generic(cx, base, seq![stmt]);
            match base[i].value->Scalar_0 {
                ScalarView::Str(_) => r == with_field(base, i, ScalarView::Str(s)),
                ScalarView::WStr(_) => r == with_field(base, i, ScalarView::WStr(s)),
                ScalarView::PString(_) => r == with_field(
                    base,
                    i,
                    ScalarView::PString(vstd::utf8::encode_utf8(s)),
                ),
                ScalarView::DefString(_) => if s.len() == 0 {
                    r == with_field(base, i, ScalarView::DefString(-1i32))
                } else {
                    match (cx.strings)(s) {
                        Some(o) => r == with_field(base, i, ScalarView::DefString(o as i32)),
                        None => r == Err::<
                            (Seq<MemberView>, Seq<Spanned<StatementView>>),
                            LowerErrorView,
                        >(LowerErrorView::UnresolvedReference(s, Some(e.span))),
                    }
                },
                ScalarView::DefIndex(_) => if s.len() == 0 {
                    r == with_field(base, i, ScalarView::DefIndex(0))
                } else {
                    match (cx.defs)(s) {
                        Some(o) => r == with_field(base, i, ScalarView::DefIndex(o as i32)),
                        None => r == Err::<
                            (Seq<MemberView>, Seq<Spanned<StatementView>>),
                            LowerErrorView,
                        >(LowerErrorView::UnresolvedReference(s, Some(e.span))),
                    }
                },
                _ => r is Err,
            }
        }),
{
    lemma_one(cx, base, i, stmt, e);
}

/// The statement of a symbol sets a number to what the symbol is bound to, and a string to
/// its name. A symbol that is not bound names a definition where the field is for one.
pub proof fn a_field_holds_the_symbol(
    cx: Context,
    base: Seq<MemberView>,
    i: int,
    stmt: Spanned<StatementView>,
    e: Spanned<ExprView>,
    s: Seq<char>,
)
    requires
        0 <= i < base.len(),
        settable(base),
        base[i].value is Scalar,
        assigns(stmt.value, base[i].name, e),
        e.value == ExprView::Symbol(s),
        s != "NULL"@,
    ensures
        ({
            let r = fields::generic(cx, base, seq![stmt]);
            let bound = cx.symbols.dom().contains(s);
            let n = cx.symbols[s];
            let fits = bound && -0x8000_0000 <= n <= 0x7fff_ffff;
            match base[i].value->Scalar_0 {
                ScalarView::I32(_) => if fits {
                    r == with_field(base, i, ScalarView::I32(n as i32))
                } else {
                    r is Err
                },
                ScalarView::U32(_) => if bound && 0 <= n <= 0xffff_ffff {
                    r == with_field(base, i, ScalarView::U32(n as u32))
                } else {
                    r is Err
                },
                ScalarView::Flags(_) => if fits {
                    r == with_field(base, i, ScalarView::Flags(n as i32))
                } else {
                    r is Err
                },
                ScalarView::Enum { allowed, .. } => if fits && allowed.contains(n as i32) {
                    r == with_field(base, i, ScalarView::Enum { allowed, value: n as i32 })
                } else {
                    r is Err
                },
                ScalarView::DefIndex(_) => if fits {
                    r == with_field(base, i, ScalarView::DefIndex(n as i32))
                } else if bound {
                    r is Err
                } else {
                    match (cx.defs)(s) {
                        Some(o) => r == with_field(base, i, ScalarView::DefIndex(o as i32)),
                        None => r == Err::<
                            (Seq<MemberView>, Seq<Spanned<StatementView>>),
                            LowerErrorView,
                        >(LowerErrorView::UnresolvedReference(s, Some(e.span))),
                    }
                },
                ScalarView::Str(_) => r == with_field(base, i, ScalarView::Str(s)),
                ScalarView::WStr(_) => r == with_field(base, i, ScalarView::WStr(s)),
                ScalarView::Bool(_) => if s == "true"@ || s == "TRUE"@ {
                    r == with_field(base, i, ScalarView::Bool(true))
                } else if s == "false"@ || s == "FALSE"@ {
                    r == with_field(base, i, ScalarView::Bool(false))
                } else {
                    r is Err
                },
                _ => true,
            }
        }),
{
    lemma_one(cx, base, i, stmt, e);
    expressions::symbols_read_as_what_they_are_bound_to(cx.symbols, s);
    reveal_strlit("true");
    reveal_strlit("TRUE");
    reveal_strlit("false");
    reveal_strlit("FALSE");
    assert("true"@.len() == 4 && "TRUE"@.len() == 4 && "false"@.len() == 5 && "FALSE"@.len() == 5);
}

/// The statement of a truth value sets a truth value to it, and a number to 1 or 0.
pub proof fn a_truth_field_holds_the_literal(
    cx: Context,
    base: Seq<MemberView>,
    i: int,
    stmt: Spanned<StatementView>,
    e: Spanned<ExprView>,
    b: bool,
)
    requires
        0 <= i < base.len(),
        settable(base),
        base[i].value is Scalar,
        assigns(stmt.value, base[i].name, e),
        e.value == ExprView::Bool(b),
    ensures
        ({
            let r = fields::generic(cx, base, seq![stmt]);
            match base[i].value->Scalar_0 {
                ScalarView::Bool(_) => r == with_field(base, i, ScalarView::Bool(b)),
                ScalarView::I32(_) => r == with_field(
                    base,
                    i,
                    ScalarView::I32(
                        if b {
                            1
                        } else {
                            0
                        },
                    ),
                ),
                ScalarView::Single(_) => r is Err,
                ScalarView::Str(_) => r is Err,
                _ => true,
            }
        }),
{
    lemma_one(cx, base, i, stmt, e);
}

// ── Many statements ──────────────────────────────────────────────────────────

/// Whether two readers agree on the assignments of one field: the statements are the same,
/// and so are those of its assignments that have been used.
spec fn agree(a: ReaderView, b: ReaderView, name: Seq<char>) -> bool {
    &&& fields::same_statements(a, b)
    &&& forall|j: int|
        0 <= j < a.entries.len() && PickView::Leaf(name).picks(
            (#[trigger] a.entries[j]).stmt.value,
            a.depth,
        ) ==> a.entries[j].consumed == b.entries[j].consumed
}

proof fn lemma_agree(a: ReaderView, b: ReaderView, name: Seq<char>, k: int)
    requires
        agree(a, b, name),
    ensures
        reader::picked(a.entries, PickView::Leaf(name), a.depth, k) == reader::picked(
            b.entries,
            PickView::Leaf(name),
            b.depth,
            k,
        ),
    decreases k,
{
    if 0 < k <= a.entries.len() {
        lemma_agree(a, b, name, k - 1);
        assert(a.entries[k - 1].stmt == b.entries[k - 1].stmt);
    }
}

proof fn lemma_after_agrees(v: ValueView, other: Seq<char>, a: ReaderView, b: ReaderView, name: Seq<char>)
    requires
        agree(a, b, name),
        other != name,
    ensures
        agree(a, fields::after(v, other, b), name),
{
    let c = fields::after(v, other, b);
    assert forall|j: int|
        0 <= j < a.entries.len() && PickView::Leaf(name).picks(
            (#[trigger] a.entries[j]).stmt.value,
            a.depth,
        ) implies a.entries[j].consumed == c.entries[j].consumed by {
        assert(a.entries[j].stmt == b.entries[j].stmt);
    }
}

proof fn lemma_walk_scalar(cx: Context, v: Seq<MemberView>, k: int, a: ReaderView, r: ReaderView, i: int)
    requires
        0 <= k <= i < v.len(),
        settable(v),
        v[i].value is Scalar,
        agree(a, r, v[i].name),
    ensures
        fields::walk(cx, v, k, r) matches Ok(w) ==> w.len() == v.len() && (match a.value(
            PickView::Leaf(v[i].name),
        ) {
            None => w[i] == v[i],
            Some(e) => fields::scalar_named(cx, v[i].value->Scalar_0, e) matches Ok(x) && w[i] == (
            MemberView { name: v[i].name, value: ValueView::Scalar(x) }),
        }),
    decreases v.len() - k,
{
    let rest = fields::after(v[k].value, v[k].name, r);
    lemma_agree(a, r, v[i].name, a.entries.len() as int);
    if let Ok(x) = fields::named(cx, v[k].value, v[k].name, r) {
        let next = construct::with_value(v, k, x);
        if k < i {
            assert(v[k].name != v[i].name);
            lemma_after_agrees(v[k].value, v[k].name, a, r, v[i].name);
            if fields::walk(cx, next, k + 1, rest) is Ok {
                lemma_named_settable(cx, v[k].value, v[k].name, r);
                assert(settable(next)) by {
                    assert forall|p: int, q: int| 0 <= p < q < next.len() implies (
                    #[trigger] next[p]).name != (#[trigger] next[q]).name by {
                        assert(v[p].name != v[q].name);
                    }
                    assert forall|p: int| 0 <= p < next.len() implies !((
                    #[trigger] next[p]).value is Complex) && !(next[p].value is Array) by {
                        assert(!(v[p].value is Complex) && !(v[p].value is Array));
                    }
                }
                lemma_walk_scalar(cx, next, k + 1, a, rest, i);
            }
        } else {
            lemma_walk_later(cx, next, k + 1, rest, i);
        }
    }
}

proof fn lemma_named_settable(cx: Context, v: ValueView, name: Seq<char>, r: ReaderView)
    requires
        !(v is Complex),
        !(v is Array),
    ensures
        fields::named(cx, v, name, r) matches Ok(x) ==> !(x is Complex) && !(x is Array),
{
}

proof fn lemma_walk_later(cx: Context, v: Seq<MemberView>, k: int, r: ReaderView, i: int)
    requires
        0 <= i < k <= v.len(),
    ensures
        fields::walk(cx, v, k, r) matches Ok(w) ==> w.len() == v.len() && w[i] == v[i],
    decreases v.len() - k,
{
    if k < v.len() {
        if let Ok(x) = fields::named(cx, v[k].value, v[k].name, r) {
            lemma_walk_later(
                cx,
                construct::with_value(v, k, x),
                k + 1,
                fields::after(v[k].value, v[k].name, r),
                i,
            );
        }
    }
}

proof fn lemma_last_picked(stmts: Seq<Spanned<StatementView>>, pick: PickView, k: int, last: int)
    requires
        0 <= last < k <= stmts.len(),
        pick.picks(stmts[last].value, 0),
        forall|j: int| last < j < stmts.len() ==> !pick.picks((#[trigger] stmts[j]).value, 0),
    ensures
        ({
            let p = reader::picked(reader::fresh(stmts), pick, 0, k);
            p.len() > 0 && p.last() == stmts[last]
        }),
    decreases k,
{
    if k - 1 > last {
        lemma_last_picked(stmts, pick, k - 1, last);
        assert(!pick.picks(stmts[k - 1].value, 0));
    }
}

proof fn lemma_stands(
    body: Seq<Spanned<StatementView>>,
    k: int,
    last: int,
    name: Seq<char>,
) -> (p: int)
    requires
        0 <= last < k <= body.len(),
        fields::mentions(body[last].value, name),
        forall|j: int| last < j < body.len() ==> !fields::mentions((#[trigger] body[j]).value, name),
    ensures
        0 <= p < body::standing(body, k).len(),
        body::standing(body, k)[p] == body[last],
        forall|j: int|
            p < j < body::standing(body, k).len() ==> !fields::mentions(
                (#[trigger] body::standing(body, k)[j]).value,
                name,
            ),
    decreases k,
{
    if k - 1 == last {
        assert(!body::superseded(body, last)) by {
            if body::superseded(body, last) {
                let j = choose|j: int|
                    last < j < body.len() && body::cleared((#[trigger] body[j]).value)
                        == body::field_of(body[last].value);
                assert(!fields::mentions(body[j].value, name));
                assert(body::field_of(body[last].value) == Some(name));
                assert(false);
            }
        }
        body::standing(body, k).len() - 1
    } else {
        let p = lemma_stands(body, k - 1, last, name);
        let before = body::standing(body, k - 1);
        let now = body::standing(body, k);
        assert forall|j: int| p < j < now.len() implies !fields::mentions(
            (#[trigger] now[j]).value,
            name,
        ) by {
            if j < before.len() {
                assert(now[j] == before[j]);
            } else {
                assert(now[j] == body[k - 1]);
            }
        }
        p
    }
}

/// However many statements a definition has, a scalar field holds what the last statement
/// about it alone sets it to.
pub proof fn the_last_statement_decides(
    cx: Context,
    base: Seq<MemberView>,
    body: Seq<Spanned<StatementView>>,
    k: int,
    i: int,
    e: Spanned<ExprView>,
)
    requires
        0 <= i < base.len(),
        settable(base),
        base[i].value is Scalar,
        0 <= k < body.len(),
        assigns(body[k].value, base[i].name, e),
        forall|j: int|
            k < j < body.len() ==> !fields::mentions((#[trigger] body[j]).value, base[i].name),
    ensures
        fields::generic(cx, base, body) matches Ok((all, _)) ==> (fields::generic(
            cx,
            base,
            seq![body[k]],
        ) matches Ok((alone, _)) && all[i] == alone[i]),
{
    let name = base[i].name;
    let path = seq![SegmentView::Field(name)];
    assert(path.len() == 1 && path[0] == SegmentView::Field(name));
    lemma_one(cx, base, i, body[k], e);
    let stmts = body::stripped(body);
    let p = lemma_stands(body, body.len() as int, k, name);
    let r = fields::over(cx, stmts);
    let leaf = PickView::Leaf(name);
    assert forall|j: int| p < j < stmts.len() implies !leaf.picks((#[trigger] stmts[j]).value, 0) by {
        assert(!fields::mentions(stmts[j].value, name));
    }
    lemma_last_picked(stmts, leaf, stmts.len() as int, p);
    assert(r.value(leaf) == Some(e));
    lemma_walk_scalar(cx, base, 0, r, r, i);
}

} // verus!
