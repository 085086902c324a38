//! Setting the fields of a definition from its statements.

use vstd::prelude::*;

use crate::eval;
use crate::eval::Evaluator;
use crate::lower::body;
use crate::lower::body::strip_superseded_by_clear;
use crate::lower::construct;
use crate::lower::construct::{
    apply_expr, apply_in_turn, apply_member, apply_struct_from_expr, apply_variant_from_expr,
    in_table, member_is_u32, read_scalar, replace_member, Applied,
};
use crate::lower::env;
use crate::lower::env::{semantic_error, Context, LowerEnv, LowerError, LowerErrorView};
use crate::reader;
use crate::reader::{Args, ArgsView, DefReader, PickView, ReaderView};
use crate::strings::same;
use crate::text::ast;
use crate::text::ast::{Expr, ExprView, SegmentView, Statement, StatementView};
use crate::text::base;
use crate::text::base::Spanned;
use crate::text::symbols::SymbolTable;
use crate::value;
use crate::value::{
    copy_members, copy_numbers, Record, ChoiceView, Compound, List, ListView, MapView, Mapping,
    Member, MemberView, Scalar, ScalarView, StructView, Value, ValueView,
};

verus! {

broadcast use base::group_views;

// ── Scalars by name ──────────────────────────────────────────────────────────

/// A scalar that a statement names: an enumeration and flags take numbers only.
pub open spec fn scalar_named(cx: Context, s: ScalarView, e: Spanned<ExprView>) -> Result<
    ScalarView,
    LowerErrorView,
> {
    match s {
        ScalarView::Enum { allowed, .. } => match reader::located(
            eval::as_i32(cx.symbols, e.value),
            e.span,
        ) {
            Ok(v) => construct::tabled(allowed, v),
            Err(x) => Err(LowerErrorView::Reader(x)),
        },
        ScalarView::Flags(_) => match reader::located(eval::as_i32(cx.symbols, e.value), e.span) {
            Ok(v) => Ok(ScalarView::Flags(v)),
            Err(x) => Err(LowerErrorView::Reader(x)),
        },
        _ => construct::scalar_from(cx, s, e),
    }
}

fn read_named_scalar<E: LowerEnv>(
    s: &Scalar,
    expr: &Spanned<Expr>,
    eval: &Evaluator,
    env: &E,
) -> (r: Result<Scalar, LowerError>)
    ensures
        (match r {
            Ok(v) => Ok(v@),
            Err(e) => Err(e@),
        }) == scalar_named(env::context(eval@, env), s@, expr@),
{
    match s {
        Scalar::Enum { allowed, .. } => match eval.eval_i32(expr) {
            Ok(v) => {
                if in_table(allowed, v) {
                    Ok(Scalar::Enum { allowed: copy_numbers(allowed), value: v })
                } else {
                    Err(semantic_error("enum value out of table"))
                }
            },
            Err(e) => Err(LowerError::Reader(e)),
        },
        Scalar::Flags(_) => match eval.eval_i32(expr) {
            Ok(v) => Ok(Scalar::Flags(v)),
            Err(e) => Err(LowerError::Reader(e)),
        },
        _ => read_scalar(s, expr, eval, env),
    }
}

// ── What a field uses up ─────────────────────────────────────────────────────

/// The reader behind a list.
pub open spec fn list_after(name: Seq<char>, r: ReaderView) -> ReaderView {
    r.without(PickView::Calls(name, "clear"@)).without(
        PickView::Calls(name, "resize"@),
    ).without(PickView::Calls(name, "Add"@)).without(PickView::Indexed(name))
}

/// The reader behind a map.
pub open spec fn map_after(name: Seq<char>, r: ReaderView) -> ReaderView {
    r.without(PickView::Calls(name, "clear"@)).without(PickView::Keyed(name))
}

/// The reader behind a compound.
pub open spec fn struct_after(s: StructView, name: Seq<char>, r: ReaderView) -> ReaderView {
    let rest = r.without(PickView::Leaf(name));
    if r.value(PickView::Leaf(name)) is Some {
        rest
    } else {
        let rest = rest.without(PickView::Group(name));
        if s.members.len() == 1 {
            match s.members[0].value {
                ValueView::List(_) => list_after(name, rest),
                ValueView::Mapping(_) => map_after(name, rest),
                _ => rest,
            }
        } else {
            rest
        }
    }
}

/// The reader behind the field `name`, of the kind of `v`.
pub open spec fn after(v: ValueView, name: Seq<char>, r: ReaderView) -> ReaderView {
    match v {
        ValueView::Scalar(_) => r.without(PickView::Leaf(name)),
        ValueView::Variant(_) => r.without(PickView::Leaf(name)),
        ValueView::List(_) => list_after(name, r),
        ValueView::Mapping(_) => map_after(name, r),
        ValueView::Struct(s) => struct_after(s, name, r),
        ValueView::Complex => r,
        ValueView::Array => r,
    }
}

/// The reader behind the members from `k` on, each set like a field.
pub open spec fn walk_after(v: Seq<MemberView>, k: int, r: ReaderView) -> ReaderView
    decreases v.len() - k,
{
    if k < 0 || k >= v.len() {
        r
    } else {
        walk_after(v, k + 1, after(v[k].value, v[k].name, r))
    }
}

/// The reader behind the members from `k` on, each set by its name alone.
pub open spec fn members_after(v: Seq<MemberView>, k: int, r: ReaderView) -> ReaderView
    decreases v.len() - k,
{
    if k < 0 || k >= v.len() {
        r
    } else {
        members_after(v, k + 1, r.without(PickView::Member(v[k].name)))
    }
}

/// The reader behind a colour.
pub open spec fn colour_after(r: ReaderView) -> ReaderView {
    r.without(PickView::Member("R"@)).without(PickView::Member("G"@)).without(
        PickView::Member("B"@),
    ).without(PickView::Member("A"@))
}

/// Whether the nameless value is a constructor.
pub open spec fn any_is_constructor(r: ReaderView) -> bool {
    match r.value(PickView::Any) {
        Some(e) => e.value is Constructor,
        None => false,
    }
}

/// The reader behind a compound that is set by its members.
pub open spec fn compound_after(s: StructView, r: ReaderView) -> ReaderView {
    if s.class == "RGBColour"@ {
        colour_after(r)
    } else {
        members_after(s.members, 0, r)
    }
}

/// The reader of a group behind the element that it is about.
pub open spec fn group_after(v: ValueView, r: ReaderView) -> ReaderView {
    match v {
        ValueView::Struct(s) => if s.named {
            walk_after(s.members, 0, r)
        } else if any_is_constructor(r) {
            r.without(PickView::Any)
        } else {
            compound_after(s, r)
        },
        _ => r.without(PickView::Any),
    }
}

proof fn lemma_list_after_room(name: Seq<char>, r: ReaderView)
    ensures
        list_after(name, r).room() == r.room(),
        list_after(name, r).symbols == r.symbols,
{
    let a = r.without(PickView::Calls(name, "clear"@));
    let b = a.without(PickView::Calls(name, "resize"@));
    let c = b.without(PickView::Calls(name, "Add"@));
    reader::lemma_without_room(r, PickView::Calls(name, "clear"@));
    reader::lemma_without_room(a, PickView::Calls(name, "resize"@));
    reader::lemma_without_room(b, PickView::Calls(name, "Add"@));
    reader::lemma_without_room(c, PickView::Indexed(name));
}

proof fn lemma_map_after_room(name: Seq<char>, r: ReaderView)
    ensures
        map_after(name, r).room() == r.room(),
        map_after(name, r).symbols == r.symbols,
{
    let a = r.without(PickView::Calls(name, "clear"@));
    reader::lemma_without_room(r, PickView::Calls(name, "clear"@));
    reader::lemma_without_room(a, PickView::Keyed(name));
}

/// A field leaves the room of a reader as it is.
pub proof fn lemma_after_room(v: ValueView, name: Seq<char>, r: ReaderView)
    ensures
        after(v, name, r).room() == r.room(),
        after(v, name, r).symbols == r.symbols,
{
    reader::lemma_without_room(r, PickView::Leaf(name));
    let rest = r.without(PickView::Leaf(name));
    reader::lemma_without_room(rest, PickView::Group(name));
    let group = rest.without(PickView::Group(name));
    lemma_list_after_room(name, r);
    lemma_map_after_room(name, r);
    lemma_list_after_room(name, group);
    lemma_map_after_room(name, group);
}

// ── What a field is set to ───────────────────────────────────────────────────

/// The list grown by each `resize(n)` from call `k` on.
pub open spec fn resized(cx: Context, l: ListView, calls: Seq<ArgsView>, k: int) -> Applied<ListView>
    decreases calls.len() - k,
{
    if k < 0 || k >= calls.len() {
        Ok(l)
    } else if calls[k].args.len() == 0 {
        resized(cx, l, calls, k + 1)
    } else {
        match calls[k].i32(0) {
            Ok(n) => if n < 0 {
                construct::refused(l, "resize to a negative length"@)
            } else {
                resized(cx, l.grown(n as int), calls, k + 1)
            },
            Err(e) => Err((l, LowerErrorView::Reader(e))),
        }
    }
}

/// An element from the arguments of `Add(…)`: a lone value, a constructor, or the
/// members of a compound.
pub open spec fn from_args(cx: Context, v: ValueView, args: Seq<Spanned<ExprView>>) -> Applied<ValueView> {
    match v {
        ValueView::Struct(s) => if args.len() == 0 {
            construct::refused(v, "Add() with no arguments for compound"@)
        } else if args.len() == 1 && args[0].value is Constructor {
            match construct::struct_from(cx, s, args[0]) {
                Ok(s) => Ok(ValueView::Struct(s)),
                Err((s, x)) => Err((ValueView::Struct(s), x)),
            }
        } else {
            match construct::in_turn(cx, s.members, args, 0) {
                Ok(members) => Ok(ValueView::Struct(StructView { members, ..s })),
                Err((members, x)) => Err((ValueView::Struct(StructView { members, ..s }), x)),
            }
        },
        ValueView::Variant(c) => if args.len() == 0 {
            construct::refused(v, "Add() with no arguments for variant"@)
        } else if args[0].value is Constructor {
            match construct::variant_from(cx, c, args[0]) {
                Ok(c) => Ok(ValueView::Variant(c)),
                Err((c, x)) => Err((ValueView::Variant(c), x)),
            }
        } else if args.len() == 1 {
            construct::refused(v, "variant expects a constructor naming its case"@)
        } else if !(args[1].value is Constructor) {
            construct::refused(v, "variant expects constructor at arg 1"@)
        } else {
            match construct::variant_from(cx, c, args[1]) {
                Err((c, x)) => Err((ValueView::Variant(c), x)),
                Ok(c) => if c.members.len() == 0 {
                    Ok(ValueView::Variant(c))
                } else {
                    match construct::member_from(cx, c.members, 0, args[0]) {
                        Ok(members) => Ok(ValueView::Variant(ChoiceView { members, ..c })),
                        Err((members, x)) => Err(
                            (ValueView::Variant(ChoiceView { members, ..c }), x),
                        ),
                    }
                },
            }
        },
        _ => if args.len() == 0 {
            construct::refused(v, "Add() with no arguments"@)
        } else {
            construct::from_expr(cx, v, args[0])
        },
    }
}

/// Whether one of the items is an enumeration with the given value.
pub open spec fn holds_value(items: Seq<ValueView>, n: i32) -> bool {
    exists|i: int|
        0 <= i < items.len() && match #[trigger] items[i] {
            ValueView::Scalar(ScalarView::Enum { value, .. }) => value == n,
            _ => false,
        }
}

/// Whether `Add(…)` adds nothing: navigator types are a set.
pub open spec fn is_repeated(cx: Context, l: ListView, name: Seq<char>, a: ArgsView) -> bool {
    name == "NavigatorTypes"@ && a.args.len() > 0 && (eval::as_i32(cx.symbols, a.args[0].value)
        matches Ok(n) && holds_value(l.items, n))
}

/// The list with the element of each `Add(…)` from call `k` on.
pub open spec fn added(
    cx: Context,
    l: ListView,
    name: Seq<char>,
    calls: Seq<ArgsView>,
    k: int,
) -> Applied<ListView>
    decreases calls.len() - k,
{
    if k < 0 || k >= calls.len() {
        Ok(l)
    } else if is_repeated(cx, l, name, calls[k]) {
        added(cx, l, name, calls, k + 1)
    } else {
        match from_args(cx, *l.element, calls[k].args) {
            Ok(x) => added(cx, ListView { items: l.items.push(x), ..l }, name, calls, k + 1),
            Err((x, error)) => Err((ListView { items: l.items.push(x), ..l }, error)),
        }
    }
}

/// The members from `k` on, each set by its name alone.
pub open spec fn members_from(cx: Context, v: Seq<MemberView>, k: int, r: ReaderView) -> Applied<Seq<MemberView>>
    decreases v.len() - k,
{
    if k < 0 || k >= v.len() {
        Ok(v)
    } else {
        let rest = r.without(PickView::Member(v[k].name));
        match r.value(PickView::Member(v[k].name)) {
            None => members_from(cx, v, k + 1, rest),
            Some(e) => match construct::from_expr(cx, v[k].value, e) {
                Ok(x) => members_from(cx, construct::with_value(v, k, x), k + 1, rest),
                Err((x, error)) => Err((construct::with_value(v, k, x), error)),
            },
        }
    }
}

/// The number with the byte at `shift` replaced.
pub open spec fn with_byte(n: u32, byte: u32, shift: u32) -> u32 {
    (n & !(0xffu32 << shift)) | ((byte & 0xffu32) << shift)
}

/// A colour with one channel set by its name.
pub open spec fn channel_from(n: u32, name: Seq<char>, shift: u32, r: ReaderView) -> Result<
    u32,
    LowerErrorView,
> {
    match r.value(PickView::Member(name)) {
        None => Ok(n),
        Some(e) => match reader::located(eval::as_u32(r.symbols, e.value), e.span) {
            Ok(byte) => Ok(with_byte(n, byte, shift)),
            Err(x) => Err(LowerErrorView::Reader(x)),
        },
    }
}

/// A colour with its channels set by their names, in turn.
pub open spec fn channels_from(n: u32, r: ReaderView) -> Applied<u32> {
    match channel_from(n, "R"@, 16u32, r) {
        Err(x) => Err((n, x)),
        Ok(n) => {
            let r = r.without(PickView::Member("R"@));
            match channel_from(n, "G"@, 8u32, r) {
                Err(x) => Err((n, x)),
                Ok(n) => {
                    let r = r.without(PickView::Member("G"@));
                    match channel_from(n, "B"@, 0u32, r) {
                        Err(x) => Err((n, x)),
                        Ok(n) => match channel_from(
                            n,
                            "A"@,
                            24u32,
                            r.without(PickView::Member("B"@)),
                        ) {
                            Err(x) => Err((n, x)),
                            Ok(n) => Ok(n),
                        },
                    }
                },
            }
        },
    }
}

/// A compound that is set by its members.
pub open spec fn compound_from(cx: Context, s: StructView, r: ReaderView) -> Applied<StructView> {
    if s.class == "RGBColour"@ {
        if construct::is_u32(s.members, 0) {
            match channels_from(s.members[0].value->Scalar_0->U32_0, r) {
                Ok(n) => Ok(
                    StructView {
                        members: construct::with_value(
                            s.members,
                            0,
                            ValueView::Scalar(ScalarView::U32(n)),
                        ),
                        ..s
                    },
                ),
                Err((n, x)) => Err(
                    (
                        StructView {
                            members: construct::with_value(
                                s.members,
                                0,
                                ValueView::Scalar(ScalarView::U32(n)),
                            ),
                            ..s
                        },
                        x,
                    ),
                ),
            }
        } else {
            construct::refused(s, "RGBColour member is not a u32"@)
        }
    } else {
        match members_from(cx, s.members, 0, r) {
            Ok(members) => Ok(StructView { members, ..s }),
            Err((members, x)) => Err((StructView { members, ..s }, x)),
        }
    }
}

/// Whether the reader of a group has been used up.
pub open spec fn used_up(r: ReaderView) -> Result<(), LowerErrorView> {
    match r.finished() {
        Ok(_) => Ok(()),
        Err(e) => Err(LowerErrorView::Reader(e)),
    }
}

/// The element that the statements of a group are about.
pub open spec fn from_group(cx: Context, v: ValueView, r: ReaderView) -> Applied<ValueView>
    decreases r.room(), 6nat, 0nat,
{
    match v {
        ValueView::Struct(s) => {
            let set = if s.named {
                match walk(cx, s.members, 0, r) {
                    Ok(members) => Ok(StructView { members, ..s }),
                    Err((members, x)) => Err((StructView { members, ..s }, x)),
                }
            } else if any_is_constructor(r) {
                construct::struct_from(cx, s, r.value(PickView::Any)->0)
            } else {
                compound_from(cx, s, r)
            };
            match set {
                Ok(s) => Ok(ValueView::Struct(s)),
                Err((s, x)) => Err((ValueView::Struct(s), x)),
            }
        },
        _ => match r.any() {
            Ok(e) => construct::from_expr(cx, v, e),
            Err(e) => Err((v, LowerErrorView::Reader(e))),
        },
    }
}

/// The members from `k` on, each set like a field.
pub open spec fn walk(cx: Context, v: Seq<MemberView>, k: int, r: ReaderView) -> Applied<Seq<MemberView>>
    decreases r.room(), 5nat, v.len() - k,
{
    if k < 0 || k >= v.len() {
        Ok(v)
    } else {
        proof {
            lemma_after_room(v[k].value, v[k].name, r);
        }
        match named(cx, v[k].value, v[k].name, r) {
            Ok(x) => walk(
                cx,
                construct::with_value(v, k, x),
                k + 1,
                after(v[k].value, v[k].name, r),
            ),
            Err((x, error)) => Err((construct::with_value(v, k, x), error)),
        }
    }
}

/// The field `name`, set by its statements.
pub open spec fn named(cx: Context, v: ValueView, name: Seq<char>, r: ReaderView) -> Applied<ValueView>
    decreases r.room(), 4nat, 0nat,
{
    match v {
        ValueView::Scalar(s) => match r.value(PickView::Leaf(name)) {
            None => Ok(v),
            Some(e) => match scalar_named(cx, s, e) {
                Ok(s) => Ok(ValueView::Scalar(s)),
                Err(x) => Err((v, x)),
            },
        },
        ValueView::Variant(c) => match r.value(PickView::Leaf(name)) {
            None => Ok(v),
            Some(e) => match construct::variant_from(cx, c, e) {
                Ok(c) => Ok(ValueView::Variant(c)),
                Err((c, x)) => Err((ValueView::Variant(c), x)),
            },
        },
        ValueView::List(l) => match list_named(cx, l, name, r) {
            Ok(l) => Ok(ValueView::List(l)),
            Err((l, x)) => Err((ValueView::List(l), x)),
        },
        ValueView::Mapping(m) => match map_named(cx, m, name, r) {
            Ok(m) => Ok(ValueView::Mapping(m)),
            Err((m, x)) => Err((ValueView::Mapping(m), x)),
        },
        ValueView::Struct(s) => match struct_named(cx, s, name, r) {
            Ok(s) => Ok(ValueView::Struct(s)),
            Err((s, x)) => Err((ValueView::Struct(s), x)),
        },
        ValueView::Complex => construct::refused(v, "unhandled complex field"@),
        ValueView::Array => construct::refused(v, "unhandled array field"@),
    }
}

/// The list `name`: `clear()`, then `resize(n)`, then `Add(…)`, then elements by
/// their index.
pub open spec fn list_named(cx: Context, l: ListView, name: Seq<char>, r: ReaderView) -> Applied<ListView>
    decreases r.room(), 2nat, 0nat,
{
    let clears = PickView::Calls(name, "clear"@);
    let resizes = PickView::Calls(name, "resize"@);
    let adds = PickView::Calls(name, "Add"@);
    let l = if r.call_args(name, "clear"@).len() > 0 {
        ListView { items: Seq::empty(), ..l }
    } else {
        l
    };
    let behind_clears = r.without(clears);
    let behind_resizes = behind_clears.without(resizes);
    let behind_adds = behind_resizes.without(adds);
    proof {
        reader::lemma_without_room(r, clears);
        reader::lemma_without_room(behind_clears, resizes);
        reader::lemma_without_room(behind_resizes, adds);
    }
    match resized(cx, l, behind_clears.call_args(name, "resize"@), 0) {
        Err(x) => Err(x),
        Ok(l) => match added(cx, l, name, behind_resizes.call_args(name, "Add"@), 0) {
            Err(x) => Err(x),
            Ok(l) => indexed(cx, l, name, behind_adds, 0),
        },
    }
}

/// The list with the elements of the groups from `k` on.
pub open spec fn indexed(
    cx: Context,
    l: ListView,
    name: Seq<char>,
    r: ReaderView,
    k: int,
) -> Applied<ListView>
    decreases r.room(), 1nat, r.index_count(name) - k,
{
    match r.by_index(name) {
        Err(e) => Err((l, LowerErrorView::Reader(e))),
        Ok(groups) => if k < 0 || k >= groups.len() {
            Ok(l)
        } else {
            let g = r.below(groups[k].stmts, 2);
            proof {
                reader::lemma_index_room(r, name, k);
            }
            match placed(cx, l, groups[k].index as int, g) {
                Err(x) => Err(x),
                Ok(l) => indexed(cx, l, name, r, k + 1),
            }
        },
    }
}

/// The list with element `i` set by the statements of a group.
pub open spec fn placed(cx: Context, l: ListView, i: int, g: ReaderView) -> Applied<ListView>
    decreases g.room(), 7nat, 0nat,
{
    let l = l.grown(i + 1);
    match from_group(cx, l.items[i], g) {
        Err((x, error)) => Err((ListView { items: l.items.update(i, x), ..l }, error)),
        Ok(x) => match used_up(group_after(l.items[i], g)) {
            Err(error) => Err((ListView { items: l.items.update(i, x), ..l }, error)),
            Ok(_) => Ok(ListView { items: l.items.update(i, x), ..l }),
        },
    }
}

/// The map `name`: `clear()`, then entries by their key.
pub open spec fn map_named(cx: Context, m: MapView, name: Seq<char>, r: ReaderView) -> Applied<MapView>
    decreases r.room(), 2nat, 0nat,
{
    let clears = PickView::Calls(name, "clear"@);
    let m = if r.call_args(name, "clear"@).len() > 0 {
        MapView { entries: Seq::empty(), ..m }
    } else {
        m
    };
    proof {
        reader::lemma_without_room(r, clears);
    }
    keyed(cx, m, name, r.without(clears), 0)
}

/// The map with the entries of the groups from `k` on.
pub open spec fn keyed(
    cx: Context,
    m: MapView,
    name: Seq<char>,
    r: ReaderView,
    k: int,
) -> Applied<MapView>
    decreases r.room(), 1nat, r.by_key(name).len() - k,
{
    let groups = r.by_key(name);
    if k < 0 || k >= groups.len() {
        Ok(m)
    } else {
        let g = r.below(groups[k].stmts, 2);
        proof {
            reader::lemma_key_room(r, name, k);
        }
        match construct::from_expr(cx, *m.key, groups[k].key) {
            Err((_, x)) => Err((m, x)),
            Ok(key) => match from_group(cx, *m.value, g) {
                Err((_, x)) => Err((m, x)),
                Ok(value) => match used_up(group_after(*m.value, g)) {
                    Err(x) => Err((m, x)),
                    Ok(_) => keyed(cx, m.put(key, value), name, r, k + 1),
                },
            },
        }
    }
}

/// The compound `name`: a constructor, or member by member. A compound around a
/// single container takes the container's statements too.
pub open spec fn struct_named(cx: Context, s: StructView, name: Seq<char>, r: ReaderView) -> Applied<StructView>
    decreases r.room(), 3nat, 0nat,
{
    match r.value(PickView::Leaf(name)) {
        Some(e) => if e.value is Constructor {
            construct::struct_from(cx, s, e)
        } else {
            construct::refused(s, "compound field expects a constructor or member paths"@)
        },
        None => {
            let rest = r.without(PickView::Leaf(name));
            let set = match rest.members(name) {
                None => Ok(s),
                Some(g) => match compound_from(cx, s, g) {
                    Err(x) => Err(x),
                    Ok(set) => match used_up(compound_after(s, g)) {
                        Err(x) => Err((set, x)),
                        Ok(_) => Ok(set),
                    },
                },
            };
            let behind = rest.without(PickView::Group(name));
            proof {
                reader::lemma_without_room(r, PickView::Leaf(name));
                reader::lemma_without_room(rest, PickView::Group(name));
            }
            match set {
                Err(x) => Err(x),
                Ok(s) => if s.members.len() == 1 {
                    match s.members[0].value {
                        ValueView::List(l) => match list_named(cx, l, name, behind) {
                            Ok(l) => Ok(
                                StructView {
                                    members: construct::with_value(
                                        s.members,
                                        0,
                                        ValueView::List(l),
                                    ),
                                    ..s
                                },
                            ),
                            Err((l, x)) => Err(
                                (
                                    StructView {
                                        members: construct::with_value(
                                            s.members,
                                            0,
                                            ValueView::List(l),
                                        ),
                                        ..s
                                    },
                                    x,
                                ),
                            ),
                        },
                        ValueView::Mapping(m) => match map_named(cx, m, name, behind) {
                            Ok(m) => Ok(
                                StructView {
                                    members: construct::with_value(
                                        s.members,
                                        0,
                                        ValueView::Mapping(m),
                                    ),
                                    ..s
                                },
                            ),
                            Err((m, x)) => Err(
                                (
                                    StructView {
                                        members: construct::with_value(
                                            s.members,
                                            0,
                                            ValueView::Mapping(m),
                                        ),
                                        ..s
                                    },
                                    x,
                                ),
                            ),
                        },
                        _ => Ok(s),
                    }
                } else {
                    Ok(s)
                },
            }
        },
    }
}

// ── Kinds ────────────────────────────────────────────────────────────────────

/// Whether two values are of one kind.
pub open spec fn same_kind(a: ValueView, b: ValueView) -> bool {
    match a {
        ValueView::Scalar(_) => b is Scalar,
        ValueView::List(_) => b is List,
        ValueView::Mapping(_) => b is Mapping,
        ValueView::Struct(_) => b is Struct,
        ValueView::Variant(_) => b is Variant,
        ValueView::Complex => b is Complex,
        ValueView::Array => b is Array,
    }
}

/// Whether members are of the same kinds.
pub open spec fn same_kinds(a: Seq<MemberView>, b: Seq<MemberView>) -> bool {
    a.len() == b.len() && forall|i: int|
        0 <= i < a.len() ==> same_kind((#[trigger] a[i]).value, b[i].value) && a[i].name
            == b[i].name
}

proof fn lemma_members_from_kinds(cx: Context, v: Seq<MemberView>, k: int, r: ReaderView)
    ensures
        members_from(cx, v, k, r) matches Ok(w) ==> same_kinds(v, w),
    decreases v.len() - k,
{
    if 0 <= k < v.len() {
        let rest = r.without(PickView::Member(v[k].name));
        match r.value(PickView::Member(v[k].name)) {
            None => lemma_members_from_kinds(cx, v, k + 1, rest),
            Some(e) => match construct::from_expr(cx, v[k].value, e) {
                Ok(x) => lemma_members_from_kinds(cx, construct::with_value(v, k, x), k + 1, rest),
                Err(_) => {},
            },
        }
    }
}

proof fn lemma_members_after_kinds(v: Seq<MemberView>, w: Seq<MemberView>, k: int, r: ReaderView)
    requires
        same_kinds(v, w),
    ensures
        members_after(v, k, r) == members_after(w, k, r),
    decreases v.len() - k,
{
    if 0 <= k < v.len() {
        assert(v[k].name == w[k].name);
        lemma_members_after_kinds(v, w, k + 1, r.without(PickView::Member(v[k].name)));
    }
}

// ── Applying statements ──────────────────────────────────────────────────────

fn is_constructor(e: &Expr) -> (r: bool)
    ensures
        r == (e@ is Constructor),
{
    proof {
        ast::lemma_expr_view(*e);
    }
    match e {
        Expr::Constructor(_) => true,
        _ => false,
    }
}

/// Grows a list by each `resize(n)`.
fn apply_resizes<'a, 's>(l: &mut List, calls: &Vec<Args<'a, 's>>, cx: Ghost<Context>) -> (r: Result<
    (),
    LowerError,
>)
    ensures
        construct::applied(r, final(l)@) == resized(cx@, old(l)@, base::views(calls@), 0),
{
    let ghost all = base::views(calls@);
    let ghost whole = resized(cx@, l@, all, 0);
    let mut k: usize = 0;
    while k < calls.len()
        invariant
            k <= calls@.len(),
            all == base::views(calls@),
            whole == resized(cx@, old(l)@, all, 0),
            whole == resized(cx@, l@, all, k as int),
        decreases calls@.len() - k,
    {
        assert(all[k as int] == calls@[k as int]@);
        if calls[k].len() > 0 {
            match calls[k].i32(0) {
                Ok(n) => {
                    if n < 0 {
                        return Err(semantic_error("resize to a negative length"));
                    }
                    l.grow(n as usize);
                },
                Err(e) => return Err(LowerError::Reader(e)),
            }
        }
        k = k + 1;
    }
    Ok(())
}

fn list_holds(items: &Vec<Value>, n: i32) -> (r: bool)
    ensures
        r == holds_value(base::views(items@), n),
{
    let ghost all = base::views(items@);
    let mut i: usize = 0;
    while i < items.len()
        invariant
            i <= items@.len(),
            all == base::views(items@),
            forall|j: int|
                0 <= j < i ==> match #[trigger] all[j] {
                    ValueView::Scalar(ScalarView::Enum { value, .. }) => value != n,
                    _ => true,
                },
        decreases items@.len() - i,
    {
        proof {
            assert(all[i as int] == items@[i as int]@);
            value::lemma_value_view(items@[i as int]);
        }
        match &items[i] {
            Value::Scalar(Scalar::Enum { value, .. }) => {
                if *value == n {
                    return true;
                }
            },
            _ => {},
        }
        i = i + 1;
    }
    false
}

fn test_repeated<'a, 's>(
    l: &List,
    name: &str,
    args: &Args<'a, 's>,
    eval: &Evaluator,
    cx: Ghost<Context>,
) -> (r: bool)
    requires
        cx@.symbols == eval@,
    ensures
        r == is_repeated(cx@, l@, name@, args@),
{
    if !same(name, "NavigatorTypes") {
        return false;
    }
    match args.opt(0) {
        None => false,
        Some(e) => match eval.i32(e) {
            Ok(n) => list_holds(&l.items, n),
            Err(_) => false,
        },
    }
}

/// Sets an element from the arguments of `Add(…)`.
fn apply_from_args<'a, 's, E: LowerEnv>(
    v: &mut Value,
    args: &Args<'a, 's>,
    eval: &Evaluator,
    env: &E,
) -> (r: Result<(), LowerError>)
    ensures
        construct::applied(r, final(v)@) == from_args(
            env::context(eval@, env),
            old(v)@,
            args@.args,
        ),
{
    proof {
        value::lemma_value_view(*v);
    }
    let list = args.list();
    let ghost all = args@.args;
    proof {
        if list@.len() > 0 {
            assert(all[0] == list@[0]@);
        }
        if list@.len() > 1 {
            assert(all[1] == list@[1]@);
        }
    }
    match v {
        Value::Struct(s) => {
            if list.len() == 0 {
                return Err(semantic_error("Add() with no arguments for compound"));
            }
            let r = if list.len() == 1 && is_constructor(&list[0].value) {
                apply_struct_from_expr(s, &list[0], eval, env)
            } else {
                apply_in_turn(&mut s.members, list, eval, env)
            };
            proof {
                value::lemma_value_view(*v);
            }
            r
        },
        Value::Variant(c) => {
            if list.len() == 0 {
                return Err(semantic_error("Add() with no arguments for variant"));
            }
            if is_constructor(&list[0].value) {
                let r = apply_variant_from_expr(c, &list[0], eval, env);
                proof {
                    value::lemma_value_view(*v);
                }
                return r;
            }
            if list.len() == 1 {
                return Err(semantic_error("variant expects a constructor naming its case"));
            }
            if !is_constructor(&list[1].value) {
                return Err(semantic_error("variant expects constructor at arg 1"));
            }
            let mut r = apply_variant_from_expr(c, &list[1], eval, env);
            if r.is_ok() && c.members.len() > 0 {
                r = apply_member(&mut c.members, 0, &list[0], eval, env);
            }
            proof {
                value::lemma_value_view(*v);
            }
            r
        },
        _ => {
            if list.len() == 0 {
                return Err(semantic_error("Add() with no arguments"));
            }
            apply_expr(v, &list[0], eval, env)
        },
    }
}

/// Adds the element of each `Add(…)`.
fn apply_adds<'a, 's, E: LowerEnv>(
    l: &mut List,
    name: &str,
    calls: &Vec<Args<'a, 's>>,
    eval: &Evaluator,
    env: &E,
) -> (r: Result<(), LowerError>)
    ensures
        construct::applied(r, final(l)@) == added(
            env::context(eval@, env),
            old(l)@,
            name@,
            base::views(calls@),
            0,
        ),
{
    let ghost cx = env::context(eval@, env);
    let ghost all = base::views(calls@);
    let ghost whole = added(cx, l@, name@, all, 0);
    let mut k: usize = 0;
    while k < calls.len()
        invariant
            k <= calls@.len(),
            cx == env::context(eval@, env),
            all == base::views(calls@),
            whole == added(cx, old(l)@, name@, all, 0),
            whole == added(cx, l@, name@, all, k as int),
        decreases calls@.len() - k,
    {
        assert(all[k as int] == calls@[k as int]@);
        if !test_repeated(l, name, &calls[k], eval, Ghost(cx)) {
            let mut x = (&*l.element).clone();
            let r = apply_from_args(&mut x, &calls[k], eval, env);
            l.items.push(x);
            match r {
                Ok(_) => {},
                Err(e) => return Err(e),
            }
        }
        k = k + 1;
    }
    Ok(())
}

/// Sets one channel of a colour by its name.
fn apply_channel<'a, 's>(n: u32, name: &str, shift: u32, r: &mut DefReader<'a, 's>) -> (res: Result<
    u32,
    LowerError,
>)
    requires
        shift < 32,
    ensures
        env::lowered(res) == channel_from(n, name@, shift, old(r)@),
        final(r)@ == old(r)@.without(PickView::Member(name@)),
{
    let eval = r.eval();
    match r.opt_expr_normalized(name) {
        None => Ok(n),
        Some(e) => match eval.eval_u32(e) {
            Ok(byte) => Ok((n & !(0xffu32 << shift)) | ((byte & 0xffu32) << shift)),
            Err(e) => Err(LowerError::Reader(e)),
        },
    }
}

fn apply_channels<'a, 's>(n: &mut u32, r: &mut DefReader<'a, 's>) -> (res: Result<(), LowerError>)
    ensures
        construct::applied(res, *final(n)) == channels_from(*old(n), old(r)@),
        res is Ok ==> final(r)@ == colour_after(old(r)@),
{
    *n = match apply_channel(*n, "R", 16, r) {
        Ok(n) => n,
        Err(e) => return Err(e),
    };
    *n = match apply_channel(*n, "G", 8, r) {
        Ok(n) => n,
        Err(e) => return Err(e),
    };
    *n = match apply_channel(*n, "B", 0, r) {
        Ok(n) => n,
        Err(e) => return Err(e),
    };
    *n = match apply_channel(*n, "A", 24, r) {
        Ok(n) => n,
        Err(e) => return Err(e),
    };
    Ok(())
}

/// Sets members by their names.
fn apply_members<'a, 's, E: LowerEnv>(
    v: &mut Vec<Member>,
    r: &mut DefReader<'a, 's>,
    env: &E,
) -> (res: Result<(), LowerError>)
    ensures
        construct::applied_members(res, final(v)@) == members_from(
            env::context(old(r)@.symbols, env),
            base::views(old(v)@),
            0,
            old(r)@,
        ),
        res is Ok ==> final(r)@ == members_after(base::views(old(v)@), 0, old(r)@),
{
    let eval = r.eval();
    let ghost cx = env::context(eval@, env);
    let ghost start = base::views(v@);
    let ghost whole = members_from(cx, start, 0, r@);
    let ghost end = members_after(start, 0, r@);
    let mut k: usize = 0;
    while k < v.len()
        invariant
            k <= v@.len(),
            cx == env::context(eval@, env),
            eval@ == r@.symbols,
            eval@ == old(r)@.symbols,
            start == base::views(old(v)@),
            same_kinds(start, base::views(v@)),
            whole == members_from(cx, start, 0, old(r)@),
            end == members_after(start, 0, old(r)@),
            whole == members_from(cx, base::views(v@), k as int, r@),
            end == members_after(start, k as int, r@),
        decreases v@.len() - k,
    {
        let ghost before = base::views(v@);
        assert(before[k as int] == v@[k as int]@);
        assert(start[k as int].name == before[k as int].name);
        match r.opt_expr_normalized(v[k].name.as_str()) {
            None => {},
            Some(e) => {
                match apply_member(v, k, e, &eval, env) {
                    Ok(_) => {},
                    Err(e) => return Err(e),
                }
                proof {
                    assert(base::views(v@).len() == before.len());
                    assert forall|i: int| 0 <= i < start.len() implies same_kind(
                        (#[trigger] start[i]).value,
                        base::views(v@)[i].value,
                    ) && start[i].name == base::views(v@)[i].name by {
                        assert(same_kind(start[i].value, before[i].value));
                    }
                }
            },
        }
        k = k + 1;
    }
    Ok(())
}

/// Sets a compound by its members.
fn apply_struct_members<'a, 's, E: LowerEnv>(
    s: &mut Compound,
    r: &mut DefReader<'a, 's>,
    env: &E,
) -> (res: Result<(), LowerError>)
    ensures
        construct::applied(res, final(s)@) == compound_from(
            env::context(old(r)@.symbols, env),
            old(s)@,
            old(r)@,
        ),
        res is Ok ==> final(r)@ == compound_after(old(s)@, old(r)@),
        res is Ok ==> same_kinds(old(s)@.members, final(s)@.members),
{
    if same(s.class.as_str(), "RGBColour") {
        if !member_is_u32(&s.members, 0) {
            return Err(semantic_error("RGBColour member is not a u32"));
        }
        proof {
            assert(base::views(s.members@)[0] == s.members@[0]@);
            value::lemma_value_view(s.members@[0].value);
        }
        let mut n: u32 = match &s.members[0].value {
            Value::Scalar(Scalar::U32(n)) => *n,
            _ => 0,
        };
        let res = apply_channels(&mut n, r);
        let x = Value::Scalar(Scalar::U32(n));
        proof {
            value::lemma_value_view(x);
        }
        replace_member(&mut s.members, 0, x);
        res
    } else {
        proof {
            lemma_members_from_kinds(
                env::context(r@.symbols, env),
                base::views(s.members@),
                0,
                r@,
            );
        }
        apply_members(&mut s.members, r, env)
    }
}

/// Sets the element that the statements of a group are about.
fn apply_from_group<'a, 's, E: LowerEnv>(
    v: &mut Value,
    r: &mut DefReader<'a, 's>,
    env: &E,
) -> (res: Result<(), LowerError>)
    ensures
        construct::applied(res, final(v)@) == from_group(
            env::context(old(r)@.symbols, env),
            old(v)@,
            old(r)@,
        ),
        res is Ok ==> final(r)@ == group_after(old(v)@, old(r)@),
    decreases old(r)@.room(), 6nat, 0nat,
{
    let eval = r.eval();
    proof {
        value::lemma_value_view(*v);
    }
    match v {
        Value::Struct(s) => {
            let ghost before = s@;
            let res = if s.named {
                apply_walk(&mut s.members, r, env)
            } else {
                let ctor = match r.peek_any_expr() {
                    Some(e) => is_constructor(&e.value),
                    None => false,
                };
                if ctor {
                    match r.any_expr() {
                        Ok(e) => apply_struct_from_expr(s, e, &eval, env),
                        Err(e) => Err(LowerError::Reader(e)),
                    }
                } else {
                    apply_struct_members(s, r, env)
                }
            };
            proof {
                value::lemma_value_view(*v);
            }
            res
        },
        _ => match r.any_expr() {
            Ok(e) => apply_expr(v, e, &eval, env),
            Err(e) => Err(LowerError::Reader(e)),
        },
    }
}

/// Sets members like fields.
fn apply_walk<'a, 's, E: LowerEnv>(
    v: &mut Vec<Member>,
    r: &mut DefReader<'a, 's>,
    env: &E,
) -> (res: Result<(), LowerError>)
    ensures
        construct::applied_members(res, final(v)@) == walk(
            env::context(old(r)@.symbols, env),
            base::views(old(v)@),
            0,
            old(r)@,
        ),
        res is Ok ==> final(r)@ == walk_after(base::views(old(v)@), 0, old(r)@),
    decreases old(r)@.room(), 5nat, 0nat,
{
    let ghost cx = env::context(r@.symbols, env);
    let ghost start = base::views(v@);
    let ghost whole = walk(cx, start, 0, r@);
    let ghost end = walk_after(start, 0, r@);
    let mut k: usize = 0;
    while k < v.len()
        invariant
            k <= v@.len(),
            cx == env::context(r@.symbols, env),
            cx == env::context(old(r)@.symbols, env),
            r@.symbols == old(r)@.symbols,
            r@.room() == old(r)@.room(),
            start == base::views(old(v)@),
            start.len() == v@.len(),
            forall|i: int| k <= i < v@.len() ==> (#[trigger] base::views(v@)[i]) == start[i],
            whole == walk(cx, start, 0, old(r)@),
            end == walk_after(start, 0, old(r)@),
            whole == walk(cx, base::views(v@), k as int, r@),
            end == walk_after(start, k as int, r@),
        decreases v@.len() - k,
    {
        let ghost before = base::views(v@);
        let ghost reader_before = r@;
        proof {
            assert(before[k as int] == v@[k as int]@);
            assert(before[k as int] == start[k as int]);
            lemma_after_room(before[k as int].value, before[k as int].name, r@);
        }
        let name = v[k].name.clone();
        let res = apply_named(&mut v[k].value, name.as_str(), r, env);
        proof {
            assert(base::views(v@) =~= construct::with_value(
                before,
                k as int,
                v@[k as int].value@,
            ));
        }
        match res {
            Ok(_) => {},
            Err(e) => return Err(e),
        }
        k = k + 1;
    }
    Ok(())
}

/// Sets the field `name`.
fn apply_named<'a, 's, E: LowerEnv>(
    v: &mut Value,
    name: &str,
    r: &mut DefReader<'a, 's>,
    env: &E,
) -> (res: Result<(), LowerError>)
    ensures
        construct::applied(res, final(v)@) == named(
            env::context(old(r)@.symbols, env),
            old(v)@,
            name@,
            old(r)@,
        ),
        res is Ok ==> final(r)@ == after(old(v)@, name@, old(r)@),
    decreases old(r)@.room(), 4nat, 0nat,
{
    let eval = r.eval();
    proof {
        value::lemma_value_view(*v);
    }
    match v {
        Value::Scalar(s) => {
            match r.opt_expr(name) {
                None => {},
                Some(e) => match read_named_scalar(s, e, &eval, env) {
                    Ok(x) => {
                        *s = x;
                    },
                    Err(e) => return Err(e),
                },
            }
            proof {
                value::lemma_value_view(*v);
            }
            Ok(())
        },
        Value::Variant(c) => {
            let res = match r.opt_expr(name) {
                None => Ok(()),
                Some(e) => apply_variant_from_expr(c, e, &eval, env),
            };
            proof {
                value::lemma_value_view(*v);
            }
            res
        },
        Value::List(l) => {
            let res = apply_vec_named(l, name, r, env);
            proof {
                value::lemma_value_view(*v);
            }
            res
        },
        Value::Mapping(m) => {
            let res = apply_map_named(m, name, r, env);
            proof {
                value::lemma_value_view(*v);
            }
            res
        },
        Value::Struct(s) => {
            let res = apply_struct_named(s, name, r, env);
            proof {
                value::lemma_value_view(*v);
            }
            res
        },
        Value::Complex => Err(semantic_error("unhandled complex field")),
        Value::Array => Err(semantic_error("unhandled array field")),
    }
}

/// Sets the list `name`.
fn apply_vec_named<'a, 's, E: LowerEnv>(
    l: &mut List,
    name: &str,
    r: &mut DefReader<'a, 's>,
    env: &E,
) -> (res: Result<(), LowerError>)
    ensures
        construct::applied(res, final(l)@) == list_named(
            env::context(old(r)@.symbols, env),
            old(l)@,
            name@,
            old(r)@,
        ),
        res is Ok ==> final(r)@ == list_after(name@, old(r)@),
    decreases old(r)@.room(), 2nat, 0nat,
{
    let eval = r.eval();
    let ghost cx = env::context(eval@, env);
    let clears = r.calls(name, "clear");
    if clears.len() > 0 {
        l.items = Vec::new();
    }
    let resizes = r.calls(name, "resize");
    match apply_resizes(l, &resizes, Ghost(cx)) {
        Ok(_) => {},
        Err(e) => return Err(e),
    }
    let adds = r.calls(name, "Add");
    match apply_adds(l, name, &adds, &eval, env) {
        Ok(_) => {},
        Err(e) => return Err(e),
    }
    proof {
        let a = old(r)@;
        let b = a.without(PickView::Calls(name@, "clear"@));
        let c = b.without(PickView::Calls(name@, "resize"@));
        reader::lemma_without_room(a, PickView::Calls(name@, "clear"@));
        reader::lemma_without_room(b, PickView::Calls(name@, "resize"@));
        reader::lemma_without_room(c, PickView::Calls(name@, "Add"@));
    }
    apply_indexed(l, name, r, env)
}

/// Sets the elements of a list by their index.
fn apply_indexed<'a, 's, E: LowerEnv>(
    l: &mut List,
    name: &str,
    r: &mut DefReader<'a, 's>,
    env: &E,
) -> (res: Result<(), LowerError>)
    ensures
        construct::applied(res, final(l)@) == indexed(
            env::context(old(r)@.symbols, env),
            old(l)@,
            name@,
            old(r)@,
            0,
        ),
        res is Ok ==> final(r)@ == old(r)@.without(PickView::Indexed(name@)),
    decreases old(r)@.room(), 1nat, 0nat,
{
    let ghost cx = env::context(r@.symbols, env);
    let ghost start = r@;
    let ghost whole = indexed(cx, l@, name@, start, 0);
    let mut groups = match r.indexed_sparse(name) {
        Ok(g) => g,
        Err(e) => return Err(LowerError::Reader(e)),
    };
    let ghost indices = start.by_index(name@)->Ok_0;
    let ghost readers = start.indexed_readers(indices);
    let n: usize = groups.len();
    proof {
        let views = reader::indexed_views(groups@);
        assert(views.len() == groups@.len());
        assert forall|j: int| 0 <= j < n implies #[trigger] groups@[j].0 == readers[j].0
            && groups@[j].1@ == readers[j].1 by {
            assert(views[j] == readers[j]);
        }
    }
    let mut k: usize = 0;
    while k < n
        invariant
            k <= n,
            n == groups@.len(),
            n == indices.len(),
            start == old(r)@,
            r@ == start.without(PickView::Indexed(name@)),
            cx == env::context(start.symbols, env),
            start.by_index(name@) == Ok::<Seq<reader::IndexGroup>, reader::ReaderErrorView>(
                indices,
            ),
            readers == start.indexed_readers(indices),
            forall|j: int|
                k <= j < n ==> #[trigger] groups@[j].0 == readers[j].0 && groups@[j].1@
                    == readers[j].1,
            whole == indexed(cx, old(l)@, name@, start, 0),
            whole == indexed(cx, l@, name@, start, k as int),
        decreases n - k,
    {
        proof {
            reader::lemma_index_room(start, name@, k as int);
            reader::lemma_index_small(start, name@, k as int);
            assert(groups@[k as int].0 == readers[k as int].0);
        }
        let i = groups[k].0;
        match apply_placed(l, i, &mut groups[k].1, env) {
            Ok(_) => {},
            Err(e) => return Err(e),
        }
        k = k + 1;
    }
    Ok(())
}

/// Sets element `i` of a list by the statements of a group.
fn apply_placed<'a, 's, E: LowerEnv>(
    l: &mut List,
    i: usize,
    g: &mut DefReader<'a, 's>,
    env: &E,
) -> (res: Result<(), LowerError>)
    requires
        i <= i32::MAX,
    ensures
        construct::applied(res, final(l)@) == placed(
            env::context(old(g)@.symbols, env),
            old(l)@,
            i as int,
            old(g)@,
        ),
    decreases old(g)@.room(), 7nat, 0nat,
{
    l.grow(i + 1);
    let ghost grown = l@;
    proof {
        assert(l.items@.len() == grown.items.len());
        assert(grown.items[i as int] == l.items@[i as int]@);
    }
    let res = apply_from_group(&mut l.items[i], g, env);
    assert(l@.items =~= grown.items.update(i as int, l.items@[i as int]@));
    match res {
        Ok(_) => {},
        Err(e) => return Err(e),
    }
    match g.is_finished() {
        Ok(_) => Ok(()),
        Err(e) => Err(LowerError::Reader(e)),
    }
}

/// Sets the map `name`.
fn apply_map_named<'a, 's, E: LowerEnv>(
    m: &mut Mapping,
    name: &str,
    r: &mut DefReader<'a, 's>,
    env: &E,
) -> (res: Result<(), LowerError>)
    ensures
        construct::applied(res, final(m)@) == map_named(
            env::context(old(r)@.symbols, env),
            old(m)@,
            name@,
            old(r)@,
        ),
        res is Ok ==> final(r)@ == map_after(name@, old(r)@),
    decreases old(r)@.room(), 2nat, 0nat,
{
    let clears = r.calls(name, "clear");
    if clears.len() > 0 {
        m.entries = Vec::new();
    }
    proof {
        reader::lemma_without_room(old(r)@, PickView::Calls(name@, "clear"@));
    }
    apply_keyed(m, name, r, env)
}

/// Sets the entries of a map by their key.
fn apply_keyed<'a, 's, E: LowerEnv>(
    m: &mut Mapping,
    name: &str,
    r: &mut DefReader<'a, 's>,
    env: &E,
) -> (res: Result<(), LowerError>)
    ensures
        construct::applied(res, final(m)@) == keyed(
            env::context(old(r)@.symbols, env),
            old(m)@,
            name@,
            old(r)@,
            0,
        ),
        res is Ok ==> final(r)@ == old(r)@.without(PickView::Keyed(name@)),
    decreases old(r)@.room(), 1nat, 0nat,
{
    let eval = r.eval();
    let ghost cx = env::context(eval@, env);
    let ghost start = r@;
    let ghost whole = keyed(cx, m@, name@, start, 0);
    let mut groups = r.keyed(name);
    let ghost keys = start.by_key(name@);
    let ghost readers = start.keyed_readers(keys);
    let n: usize = groups.len();
    proof {
        let views = reader::keyed_views(groups@);
        assert(views.len() == groups@.len());
        assert forall|j: int| 0 <= j < n implies (#[trigger] groups@[j]).0@ == readers[j].0
            && groups@[j].1@ == readers[j].1 by {
            assert(views[j] == readers[j]);
        }
    }
    let mut k: usize = 0;
    while k < n
        invariant
            k <= n,
            n == groups@.len(),
            n == keys.len(),
            start == old(r)@,
            r@ == start.without(PickView::Keyed(name@)),
            eval@ == start.symbols,
            cx == env::context(eval@, env),
            keys == start.by_key(name@),
            readers == start.keyed_readers(keys),
            forall|j: int|
                k <= j < n ==> (#[trigger] groups@[j]).0@ == readers[j].0 && groups@[j].1@
                    == readers[j].1,
            whole == keyed(cx, old(m)@, name@, start, 0),
            whole == keyed(cx, m@, name@, start, k as int),
        decreases n - k,
    {
        proof {
            reader::lemma_key_room(start, name@, k as int);
            assert(groups@[k as int].0@ == readers[k as int].0);
        }
        let mut key = (&*m.key).clone();
        match apply_expr(&mut key, groups[k].0, &eval, env) {
            Ok(_) => {},
            Err(e) => return Err(e),
        }
        let mut value = (&*m.value).clone();
        match apply_from_group(&mut value, &mut groups[k].1, env) {
            Ok(_) => {},
            Err(e) => return Err(e),
        }
        match groups[k].1.is_finished() {
            Ok(_) => {},
            Err(e) => return Err(LowerError::Reader(e)),
        }
        m.put(key, value);
        k = k + 1;
    }
    Ok(())
}

/// Sets the compound `name`.
fn apply_struct_named<'a, 's, E: LowerEnv>(
    s: &mut Compound,
    name: &str,
    r: &mut DefReader<'a, 's>,
    env: &E,
) -> (res: Result<(), LowerError>)
    ensures
        construct::applied(res, final(s)@) == struct_named(
            env::context(old(r)@.symbols, env),
            old(s)@,
            name@,
            old(r)@,
        ),
        res is Ok ==> final(r)@ == struct_after(old(s)@, name@, old(r)@),
    decreases old(r)@.room(), 3nat, 0nat,
{
    let eval = r.eval();
    match r.opt_expr(name) {
        Some(e) => {
            if is_constructor(&e.value) {
                return apply_struct_from_expr(s, e, &eval, env);
            }
            return Err(semantic_error("compound field expects a constructor or member paths"));
        },
        None => {},
    }
    match r.group(name) {
        Some(mut g) => {
            match apply_struct_members(s, &mut g, env) {
                Ok(_) => {},
                Err(e) => return Err(e),
            }
            match g.is_finished() {
                Ok(_) => {},
                Err(e) => return Err(LowerError::Reader(e)),
            }
        },
        None => {},
    }
    proof {
        let a = old(r)@;
        reader::lemma_without_room(a, PickView::Leaf(name@));
        reader::lemma_without_room(a.without(PickView::Leaf(name@)), PickView::Group(name@));
    }
    let ghost set = s@.members;
    assert(same_kinds(old(s)@.members, set));
    if s.members.len() != 1 {
        return Ok(());
    }
    proof {
        assert(set[0] == s.members@[0]@);
        value::lemma_value_view(s.members@[0].value);
        assert(same_kind(old(s)@.members[0].value, set[0].value));
    }
    let res = match &mut s.members[0].value {
        Value::List(l) => apply_vec_named(l, name, r, env),
        Value::Mapping(m) => apply_map_named(m, name, r, env),
        _ => {
            assert(base::views(s.members@) =~= set);
            return Ok(());
        },
    };
    proof {
        value::lemma_value_view(s.members@[0].value);
        assert(s@.members =~= construct::with_value(set, 0, s.members@[0].value@));
    }
    res
}

// ── Definitions ──────────────────────────────────────────────────────────────

/// A reader over the statements of a definition.
pub open spec fn over(cx: Context, body: Seq<Spanned<StatementView>>) -> ReaderView {
    ReaderView { entries: reader::fresh(body), depth: 0, symbols: cx.symbols }
}

/// The fields of a definition set by its statements, and the statements that set
/// none.
pub open spec fn generic(
    cx: Context,
    base: Seq<MemberView>,
    body: Seq<Spanned<StatementView>>,
) -> Result<(Seq<MemberView>, Seq<Spanned<StatementView>>), LowerErrorView> {
    let r = over(cx, body::stripped(body));
    match walk(cx, base, 0, r) {
        Ok(fields) => Ok((fields, walk_after(base, 0, r).left_over())),
        Err((_, x)) => Err(x),
    }
}

/// The view of lowered fields and the statements that set none.
pub open spec fn generic_view(
    r: Result<(Record, Vec<Spanned<Statement>>), LowerError>,
) -> Result<(Seq<MemberView>, Seq<Spanned<StatementView>>), LowerErrorView> {
    match r {
        Ok((fields, rest)) => Ok((fields@, base::views(rest@))),
        Err(e) => Err(e@),
    }
}

/// Lowers a definition: `base` gives what the fields are set to where no statement
/// sets them. Gives back the fields, and the statements that set none.
pub fn lower_generic<E: LowerEnv>(
    base: &Record,
    body: &Vec<Spanned<Statement>>,
    symbols: &SymbolTable,
    env: &E,
) -> (r: Result<(Record, Vec<Spanned<Statement>>), LowerError>)
    ensures
        generic_view(r) == generic(
            env::context(symbols@, env),
            base@,
            base::views(body@),
        ),
{
    let stripped = strip_superseded_by_clear(body);
    let mut reader = DefReader::new(&stripped, symbols);
    let mut fields = copy_members(&base.fields);
    match apply_walk(&mut fields, &mut reader, env) {
        Ok(_) => {},
        Err(e) => return Err(e),
    }
    Ok((Record { fields }, reader.remaining_statements()))
}

// ── Laws ─────────────────────────────────────────────────────────────────────

/// Whether a statement of a definition is about the field `name`, or a part of it.
pub open spec fn mentions(s: StatementView, name: Seq<char>) -> bool {
    match reader::subject(s) {
        Some(path) => path.len() > 0 && path[0] == SegmentView::Field(name),
        None => false,
    }
}

/// Whether no statement of a definition is about the field `name`.
pub open spec fn unmentioned(stmts: Seq<Spanned<StatementView>>, name: Seq<char>) -> bool {
    forall|i: int| 0 <= i < stmts.len() ==> !mentions((#[trigger] stmts[i]).value, name)
}

/// Whether no statement of a reader is about the field `name`.
pub open spec fn untouched(r: ReaderView, name: Seq<char>) -> bool {
    r.depth == 0 && forall|i: int|
        0 <= i < r.entries.len() ==> !mentions((#[trigger] r.entries[i]).stmt.value, name)
}

/// Whether two readers have the same statements.
pub open spec fn same_statements(a: ReaderView, b: ReaderView) -> bool {
    &&& a.depth == b.depth
    &&& a.entries.len() == b.entries.len()
    &&& forall|i: int|
        0 <= i < a.entries.len() ==> (#[trigger] a.entries[i]).stmt == b.entries[i].stmt
}

/// Whether a form is one of the field `name`.
pub open spec fn about(pick: PickView, name: Seq<char>) -> bool {
    match pick {
        PickView::Leaf(n) => n == name,
        PickView::Group(n) => n == name,
        PickView::Calls(n, _) => n == name,
        PickView::Indexed(n) => n == name,
        PickView::Keyed(n) => n == name,
        _ => false,
    }
}

pub proof fn lemma_picks_nothing(r: ReaderView, pick: PickView, name: Seq<char>, k: int)
    requires
        untouched(r, name),
        about(pick, name),
    ensures
        reader::picked(r.entries, pick, r.depth, k) == Seq::<Spanned<StatementView>>::empty(),
    decreases k,
{
    if 0 < k <= r.entries.len() {
        lemma_picks_nothing(r, pick, name, k - 1);
        assert(!mentions(r.entries[k - 1].stmt.value, name));
    }
}

pub proof fn lemma_list_untouched(cx: Context, l: ListView, name: Seq<char>, r: ReaderView)
    requires
        untouched(r, name),
    ensures
        list_named(cx, l, name, r) == Ok::<ListView, (ListView, LowerErrorView)>(l),
{
    let clears = PickView::Calls(name, "clear"@);
    let resizes = PickView::Calls(name, "resize"@);
    let adds = PickView::Calls(name, "Add"@);
    let behind_clears = r.without(clears);
    let behind_resizes = behind_clears.without(resizes);
    let behind_adds = behind_resizes.without(adds);
    lemma_picks_nothing(r, clears, name, r.entries.len() as int);
    lemma_picks_nothing(behind_clears, resizes, name, r.entries.len() as int);
    lemma_picks_nothing(behind_resizes, adds, name, r.entries.len() as int);
    lemma_picks_nothing(behind_adds, PickView::Indexed(name), name, r.entries.len() as int);
}

pub proof fn lemma_map_untouched(cx: Context, m: MapView, name: Seq<char>, r: ReaderView)
    requires
        untouched(r, name),
    ensures
        map_named(cx, m, name, r) == Ok::<MapView, (MapView, LowerErrorView)>(m),
{
    let clears = PickView::Calls(name, "clear"@);
    lemma_picks_nothing(r, clears, name, r.entries.len() as int);
    lemma_picks_nothing(r.without(clears), PickView::Keyed(name), name, r.entries.len() as int);
}

pub proof fn lemma_untouched(cx: Context, v: ValueView, name: Seq<char>, r: ReaderView)
    requires
        untouched(r, name),
        !(v is Complex),
        !(v is Array),
    ensures
        named(cx, v, name, r) == Ok::<ValueView, (ValueView, LowerErrorView)>(v),
{
    lemma_picks_nothing(r, PickView::Leaf(name), name, r.entries.len() as int);
    match v {
        ValueView::List(l) => lemma_list_untouched(cx, l, name, r),
        ValueView::Mapping(m) => lemma_map_untouched(cx, m, name, r),
        ValueView::Struct(s) => {
            let rest = r.without(PickView::Leaf(name));
            let behind = rest.without(PickView::Group(name));
            lemma_picks_nothing(rest, PickView::Group(name), name, r.entries.len() as int);
            if s.members.len() == 1 {
                let first = s.members[0].value;
                assert(construct::with_value(s.members, 0, first) =~= s.members);
                match first {
                    ValueView::List(l) => lemma_list_untouched(cx, l, name, behind),
                    ValueView::Mapping(m) => lemma_map_untouched(cx, m, name, behind),
                    _ => {},
                }
            }
        },
        _ => {},
    }
}

pub proof fn lemma_after_statements(v: ValueView, name: Seq<char>, r: ReaderView)
    ensures
        same_statements(after(v, name, r), r),
{
}

proof fn lemma_walk_keeps(cx: Context, v: Seq<MemberView>, k: int, r: ReaderView)
    requires
        0 <= k <= v.len(),
    ensures
        match walk(cx, v, k, r) {
            Ok(w) => {
                &&& same_kinds(v, w)
                &&& forall|i: int| 0 <= i < k ==> #[trigger] w[i] == v[i]
                &&& forall|i: int|
                    k <= i < v.len() && untouched(r, v[i].name) ==> #[trigger] w[i] == v[i]
            },
            Err(_) => true,
        },
    decreases v.len() - k,
{
    if k < v.len() {
        let name = v[k].name;
        let rest = after(v[k].value, name, r);
        lemma_after_statements(v[k].value, name, r);
        if let Ok(x) = named(cx, v[k].value, name, r) {
            let next = construct::with_value(v, k, x);
            lemma_walk_keeps(cx, next, k + 1, rest);
            if let Ok(w) = walk(cx, next, k + 1, rest) {
                if untouched(r, name) {
                    lemma_untouched(cx, v[k].value, name, r);
                    assert(next =~= v);
                }
                assert forall|i: int| k <= i < v.len() && untouched(r, v[i].name) implies #[trigger] w[i]
                    == v[i] by {
                    if i > k {
                        assert(untouched(rest, v[i].name)) by {
                            assert forall|j: int| 0 <= j < rest.entries.len() implies !mentions(
                                (#[trigger] rest.entries[j]).stmt.value,
                                v[i].name,
                            ) by {
                                assert(!mentions(r.entries[j].stmt.value, v[i].name));
                            }
                        }
                        assert(next[i] == v[i]);
                    }
                }
            }
        }
    }
}

proof fn lemma_walk_succeeds(cx: Context, v: Seq<MemberView>, k: int, r: ReaderView)
    requires
        0 <= k <= v.len(),
        r.entries.len() == 0,
        r.depth == 0,
        forall|i: int|
            0 <= i < v.len() ==> !((#[trigger] v[i]).value is Complex) && !(v[i].value is Array),
    ensures
        walk(cx, v, k, r) == Ok::<Seq<MemberView>, (Seq<MemberView>, LowerErrorView)>(v),
        walk_after(v, k, r).entries.len() == 0,
    decreases v.len() - k,
{
    if k < v.len() {
        let rest = after(v[k].value, v[k].name, r);
        lemma_after_statements(v[k].value, v[k].name, r);
        lemma_untouched(cx, v[k].value, v[k].name, r);
        assert(construct::with_value(v, k, v[k].value) =~= v);
        lemma_walk_succeeds(cx, v, k + 1, rest);
    }
}

/// A field that no statement mentions keeps the value that it had.
pub proof fn unmentioned_fields_keep_their_values(
    cx: Context,
    base: Seq<MemberView>,
    body: Seq<Spanned<StatementView>>,
    i: int,
)
    requires
        0 <= i < base.len(),
        unmentioned(body::stripped(body), base[i].name),
    ensures
        match generic(cx, base, body) {
            Ok((fields, _)) => fields[i] == base[i],
            Err(_) => true,
        },
{
    let r = over(cx, body::stripped(body));
    lemma_walk_keeps(cx, base, 0, r);
    assert forall|j: int| 0 <= j < r.entries.len() implies !mentions(
        (#[trigger] r.entries[j]).stmt.value,
        base[i].name,
    ) by {
        assert(!mentions(body::stripped(body)[j].value, base[i].name));
    }
    assert(untouched(r, base[i].name));
}

/// Lowering gives the fields of the type that it started from: the same names in the
/// same order, each with a value of the same kind.
pub proof fn lowering_keeps_names_and_kinds(
    cx: Context,
    base: Seq<MemberView>,
    body: Seq<Spanned<StatementView>>,
)
    ensures
        match generic(cx, base, body) {
            Ok((fields, _)) => same_kinds(base, fields),
            Err(_) => true,
        },
{
    lemma_walk_keeps(cx, base, 0, over(cx, body::stripped(body)));
}

/// A definition without statements has every field at the value that it started
/// with, and nothing is left over.
pub proof fn no_statements_change_nothing(cx: Context, base: Seq<MemberView>)
    requires
        forall|i: int|
            0 <= i < base.len() ==> !((#[trigger] base[i]).value is Complex) && !(
            base[i].value is Array),
    ensures
        generic(cx, base, Seq::empty()) == Ok::<
            (Seq<MemberView>, Seq<Spanned<StatementView>>),
            LowerErrorView,
        >((base, Seq::empty())),
{
    lemma_walk_succeeds(cx, base, 0, over(cx, Seq::empty()));
}

proof fn lemma_walk_fails(cx: Context, v: Seq<MemberView>, k: int, r: ReaderView, i: int)
    requires
        0 <= k <= i < v.len(),
        v[i].value is Complex || v[i].value is Array,
    ensures
        walk(cx, v, k, r) is Err,
    decreases v.len() - k,
{
    let rest = after(v[k].value, v[k].name, r);
    if k < i {
        if let Ok(x) = named(cx, v[k].value, v[k].name, r) {
            lemma_walk_fails(cx, construct::with_value(v, k, x), k + 1, rest, i);
        }
    }
}

/// A field whose kind nothing can set is an error, whatever the statements are.
pub proof fn an_unhandled_field_is_an_error(
    cx: Context,
    base: Seq<MemberView>,
    body: Seq<Spanned<StatementView>>,
    i: int,
)
    requires
        0 <= i < base.len(),
        base[i].value is Complex || base[i].value is Array,
    ensures
        generic(cx, base, body) is Err,
{
    lemma_walk_fails(cx, base, 0, over(cx, body::stripped(body)), i);
}

proof fn lemma_unused_from(entries: Seq<reader::EntryView>, k: int, i: int)
    requires
        0 <= k <= entries.len(),
        0 <= i < reader::unused(entries, k).len(),
    ensures
        exists|j: int| 0 <= j < k && (#[trigger] entries[j]).stmt == reader::unused(entries, k)[i],
    decreases k,
{
    if entries[k - 1].consumed || i < reader::unused(entries, k - 1).len() {
        lemma_unused_from(entries, k - 1, i);
        let j = choose|j: int|
            0 <= j < k - 1 && (#[trigger] entries[j]).stmt == reader::unused(entries, k - 1)[i];
        assert(entries[j].stmt == reader::unused(entries, k)[i]);
    } else {
        assert(entries[k - 1].stmt == reader::unused(entries, k)[i]);
    }
}

proof fn lemma_walk_statements(v: Seq<MemberView>, k: int, r: ReaderView)
    ensures
        same_statements(walk_after(v, k, r), r),
    decreases v.len() - k,
{
    if 0 <= k < v.len() {
        lemma_after_statements(v[k].value, v[k].name, r);
        let rest = after(v[k].value, v[k].name, r);
        lemma_walk_statements(v, k + 1, rest);
        let end = walk_after(v, k + 1, rest);
        assert forall|i: int| 0 <= i < end.entries.len() implies (#[trigger] end.entries[i]).stmt
            == r.entries[i].stmt by {
            assert(rest.entries[i].stmt == r.entries[i].stmt);
        }
    }
}

/// The statements that set no field are statements of the body.
pub proof fn what_sets_no_field_is_given_back(
    cx: Context,
    base: Seq<MemberView>,
    body: Seq<Spanned<StatementView>>,
)
    ensures
        match generic(cx, base, body) {
            Ok((_, rest)) => forall|i: int|
                0 <= i < rest.len() ==> body.contains(#[trigger] rest[i]),
            Err(_) => true,
        },
{
    let left = body::stripped(body);
    let r = over(cx, left);
    let end = walk_after(base, 0, r);
    lemma_walk_statements(base, 0, r);
    body::stripping_once_is_enough(body);
    let rest = end.left_over();
    assert forall|i: int| 0 <= i < rest.len() implies body.contains(#[trigger] rest[i]) by {
        lemma_unused_from(end.entries, end.entries.len() as int, i);
        let j = choose|j: int|
            0 <= j < end.entries.len() && (#[trigger] end.entries[j]).stmt == rest[i];
        assert(r.entries[j].stmt == left[j]);
    }
}

} // verus!
