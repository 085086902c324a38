//! Lowering by a table: which fields to read, how, and in which order.

use vstd::prelude::*;

use crate::eval;
use crate::eval::Evaluator;
use crate::lower::construct;
use crate::lower::construct::in_table;
use crate::lower::env;
use crate::lower::env::{
    resolve_ref, resolve_ref_i32, semantic_error, Context, LowerEnv, LowerError, LowerErrorView,
};
use crate::lower::fields;
use crate::lower::mesh;
use crate::lower::mesh::MeshRef;
use crate::reader;
use crate::reader::{ArgsView, DefReader, PickView, ReaderView};
use crate::single::Single;
use crate::strings;
use crate::strings::{push_int, push_text};
use crate::text::ast;
use crate::text::ast::{Expr, ExprView};
use crate::text::base;
use crate::text::base::Spanned;
use crate::value;
use crate::value::{
    copy_numbers, find_member, set_member, List, ListView, MapView, Mapping, Member, MemberView,
    Scalar, ScalarView, Value, ValueView,
};

verus! {

broadcast use base::group_views;

/// How a scalar field is read.
#[derive(Clone, Copy)]
pub enum How {
    Single,
    I32,
    U32,
    Bool,
    Str,
    WStr,
    Flags,
    /// A definition.
    Ref,
    /// A mesh, or a definition where the `Type` field says so.
    Mesh,
    /// The graphic of a state: a definition before a symbol.
    Graphic,
    /// A font, by name or by number.
    Font,
}

/// What the elements of a list or the values of a map are.
#[derive(Clone, Copy)]
pub enum Item {
    Single,
    I32,
    U32,
    Str,
    /// A definition.
    Ref,
}

/// What the keys of a map are.
#[derive(Clone, Copy)]
pub enum Key {
    I32,
    U32,
    Str,
}

/// A field, and how it is read.
#[derive(Clone, Copy)]
pub enum Step {
    /// A scalar.
    Field(&'static str, How),
    /// One of the values of an enumeration, whose name is for the message.
    Strict(&'static str, &'static str),
    /// A list, element by element.
    Items(&'static str, Item),
    /// A map, entry by entry.
    Entries(&'static str, Key, Item),
    /// A list of strings that is added to.
    Strings(&'static str),
    /// A map that is put in order.
    Sorted(&'static str),
}

// ── Scalars ──────────────────────────────────────────────────────────────────

/// What the `Type` field says.
pub open spec fn element_type(v: Seq<MemberView>) -> i32 {
    match value::member(v, "Type"@) {
        Some(ValueView::Scalar(ScalarView::Enum { value, .. })) => value,
        _ => 0,
    }
}

/// The graphic of a state.
pub open spec fn graphic(cx: Context, e: Spanned<ExprView>) -> Result<u32, LowerErrorView> {
    match e.value {
        ExprView::Symbol(name) => match (cx.defs)(name) {
            Some(i) => Ok(i),
            None => match eval::as_u32(cx.symbols, e.value) {
                Ok(n) => Ok(n),
                Err(_) => Err(LowerErrorView::UnresolvedReference(name, Some(e.span))),
            },
        },
        _ => env::reference(cx, e),
    }
}

/// A font: the offset of its name, or a number.
pub open spec fn font(cx: Context, e: Spanned<ExprView>) -> Result<i32, LowerErrorView> {
    match e.value {
        ExprView::String(s) => match (cx.strings)(s) {
            Some(o) => Ok(o as i32),
            None => Err(LowerErrorView::UnresolvedReference(s, Some(e.span))),
        },
        _ => env::reading(reader::located(eval::as_i32(cx.symbols, e.value), e.span)),
    }
}

/// A scalar of the given kind.
pub open spec fn scalar_as(
    cx: Context,
    how: How,
    v: Seq<MemberView>,
    e: Spanned<ExprView>,
) -> Result<ScalarView, LowerErrorView> {
    match how {
        How::Single => match reader::located(eval::as_single(cx.symbols, e.value), e.span) {
            Ok(x) => Ok(ScalarView::Single(x)),
            Err(x) => Err(LowerErrorView::Reader(x)),
        },
        How::I32 => match reader::located(eval::as_i32(cx.symbols, e.value), e.span) {
            Ok(x) => Ok(ScalarView::I32(x)),
            Err(x) => Err(LowerErrorView::Reader(x)),
        },
        How::U32 => match reader::located(eval::as_u32(cx.symbols, e.value), e.span) {
            Ok(x) => Ok(ScalarView::U32(x)),
            Err(x) => Err(LowerErrorView::Reader(x)),
        },
        How::Bool => match reader::located(eval::as_bool(e.value), e.span) {
            Ok(x) => Ok(ScalarView::Bool(x)),
            Err(x) => Err(LowerErrorView::Reader(x)),
        },
        How::Str => match reader::located(eval::as_string(e.value), e.span) {
            Ok(x) => Ok(ScalarView::Str(x)),
            Err(x) => Err(LowerErrorView::Reader(x)),
        },
        How::WStr => match reader::located(eval::as_string(e.value), e.span) {
            Ok(x) => Ok(ScalarView::WStr(x)),
            Err(x) => Err(LowerErrorView::Reader(x)),
        },
        How::Flags => match reader::located(eval::as_i32(cx.symbols, e.value), e.span) {
            Ok(x) => Ok(ScalarView::Flags(x)),
            Err(x) => Err(LowerErrorView::Reader(x)),
        },
        How::Ref => match env::reference_i32(cx, e) {
            Ok(x) => Ok(ScalarView::DefIndex(x)),
            Err(x) => Err(x),
        },
        How::Mesh => match env::reference(cx, e) {
            Ok(x) => Ok(mesh::mesh_scalar(mesh::mesh_of(element_type(v), x as i32))),
            Err(x) => Err(x),
        },
        How::Graphic => match graphic(cx, e) {
            Ok(x) => Ok(ScalarView::U32(x)),
            Err(x) => Err(x),
        },
        How::Font => match font(cx, e) {
            Ok(x) => Ok(ScalarView::DefString(x)),
            Err(x) => Err(x),
        },
    }
}

fn read_element_type(v: &Vec<Member>) -> (r: i32)
    ensures
        r == element_type(base::views(v@)),
{
    match find_member(v, "Type") {
        Some(i) => {
            proof {
                assert(base::views(v@)[i as int] == v@[i as int]@);
                value::lemma_value_view(v@[i as int].value);
            }
            match &v[i].value {
                Value::Scalar(Scalar::Enum { value, .. }) => *value,
                _ => 0,
            }
        },
        None => 0,
    }
}

fn read_graphic<E: LowerEnv>(expr: &Spanned<Expr>, eval: &Evaluator, env: &E) -> (r: Result<
    u32,
    LowerError,
>)
    ensures
        env::lowered(r) == graphic(env::context(eval@, env), expr@),
{
    proof {
        ast::lemma_expr_view(expr.value);
    }
    match &expr.value {
        Expr::Symbol(name) => match env.def_index(name.as_str()) {
            Some(i) => Ok(i),
            None => match eval.u32(expr) {
                Ok(n) => Ok(n),
                Err(_) => Err(LowerError::UnresolvedReference(name.clone(), Some(expr.span))),
            },
        },
        _ => resolve_ref(eval, env, expr),
    }
}

fn read_font<E: LowerEnv>(expr: &Spanned<Expr>, eval: &Evaluator, env: &E) -> (r: Result<
    i32,
    LowerError,
>)
    ensures
        env::lowered(r) == font(env::context(eval@, env), expr@),
{
    proof {
        ast::lemma_expr_view(expr.value);
    }
    match &expr.value {
        Expr::String(s) => match env.def_string_offset(s.as_str()) {
            Some(o) => Ok(o as i32),
            None => Err(LowerError::UnresolvedReference(s.clone(), Some(expr.span))),
        },
        _ => match eval.eval_i32(expr) {
            Ok(n) => Ok(n),
            Err(e) => Err(LowerError::Reader(e)),
        },
    }
}

fn read_as<E: LowerEnv>(
    how: How,
    v: &Vec<Member>,
    expr: &Spanned<Expr>,
    eval: &Evaluator,
    env: &E,
) -> (r: Result<Scalar, LowerError>)
    ensures
        (match r {
            Ok(x) => Ok(x@),
            Err(e) => Err(e@),
        }) == scalar_as(env::context(eval@, env), how, base::views(v@), expr@),
{
    match how {
        How::Single => match eval.eval_single(expr) {
            Ok(x) => Ok(Scalar::Single(x)),
            Err(e) => Err(LowerError::Reader(e)),
        },
        How::I32 => match eval.eval_i32(expr) {
            Ok(x) => Ok(Scalar::I32(x)),
            Err(e) => Err(LowerError::Reader(e)),
        },
        How::U32 => match eval.eval_u32(expr) {
            Ok(x) => Ok(Scalar::U32(x)),
            Err(e) => Err(LowerError::Reader(e)),
        },
        How::Bool => match eval.eval_bool(expr) {
            Ok(x) => Ok(Scalar::Bool(x)),
            Err(e) => Err(LowerError::Reader(e)),
        },
        How::Str => match eval.eval_string(expr) {
            Ok(x) => Ok(Scalar::Str(x)),
            Err(e) => Err(LowerError::Reader(e)),
        },
        How::WStr => match eval.eval_string(expr) {
            Ok(x) => Ok(Scalar::WStr(x)),
            Err(e) => Err(LowerError::Reader(e)),
        },
        How::Flags => match eval.eval_i32(expr) {
            Ok(x) => Ok(Scalar::Flags(x)),
            Err(e) => Err(LowerError::Reader(e)),
        },
        How::Ref => match resolve_ref_i32(eval, env, expr) {
            Ok(x) => Ok(Scalar::DefIndex(x)),
            Err(e) => Err(e),
        },
        How::Mesh => match resolve_ref(eval, env, expr) {
            Ok(x) => Ok(MeshRef::from_index(read_element_type(v), x as i32).scalar()),
            Err(e) => Err(e),
        },
        How::Graphic => match read_graphic(expr, eval, env) {
            Ok(x) => Ok(Scalar::U32(x)),
            Err(e) => Err(e),
        },
        How::Font => match read_font(expr, eval, env) {
            Ok(x) => Ok(Scalar::DefString(x)),
            Err(e) => Err(e),
        },
    }
}

/// The values of the enumeration that the field `name` holds.
pub open spec fn table_of(v: Seq<MemberView>, name: Seq<char>) -> Seq<i32> {
    match value::member(v, name) {
        Some(ValueView::Scalar(ScalarView::Enum { allowed, .. })) => allowed,
        _ => Seq::empty(),
    }
}

/// The text of a number that an enumeration does not have.
pub open spec fn invalid_text(kind: Seq<char>, n: i32) -> Seq<char> {
    "invalid "@ + kind + " value: "@ + strings::int_text(n as int)
}

/// One of the values of an enumeration.
pub open spec fn strict(allowed: Seq<i32>, kind: Seq<char>, n: i32) -> Result<
    ScalarView,
    LowerErrorView,
> {
    if allowed.contains(n) {
        Ok(ScalarView::Enum { allowed, value: n })
    } else {
        Err(LowerErrorView::Unsupported(invalid_text(kind, n)))
    }
}

/// The error of a number that an enumeration does not have.
pub fn invalid_value(kind: &str, n: i32) -> (r: LowerError)
    ensures
        r@ == LowerErrorView::Unsupported(invalid_text(kind@, n)),
{
    let mut text = String::new();
    push_text(&mut text, "invalid ");
    push_text(&mut text, kind);
    push_text(&mut text, " value: ");
    push_int(&mut text, n as i64);
    assert(text@ =~= invalid_text(kind@, n));
    LowerError::Unsupported(text)
}

fn read_table(v: &Vec<Member>, name: &str) -> (r: Vec<i32>)
    ensures
        r@ == table_of(base::views(v@), name@),
{
    match find_member(v, name) {
        Some(i) => {
            proof {
                assert(base::views(v@)[i as int] == v@[i as int]@);
                value::lemma_value_view(v@[i as int].value);
            }
            match &v[i].value {
                Value::Scalar(Scalar::Enum { allowed, .. }) => copy_numbers(allowed),
                _ => Vec::new(),
            }
        },
        None => Vec::new(),
    }
}

// ── Elements and keys ────────────────────────────────────────────────────────

/// What a list is filled up with.
pub open spec fn filler(item: Item) -> ValueView {
    ValueView::Scalar(
        match item {
            Item::Single => ScalarView::Single(Single { bits: 0 }),
            Item::I32 => ScalarView::I32(0),
            Item::U32 => ScalarView::U32(0),
            Item::Str => ScalarView::Str(Seq::empty()),
            Item::Ref => ScalarView::DefIndex(0),
        },
    )
}

/// The nameless value of a group.
pub open spec fn item_from(cx: Context, item: Item, g: ReaderView) -> Result<
    ValueView,
    LowerErrorView,
> {
    match item {
        Item::Single => match g.any_single() {
            Ok(x) => Ok(ValueView::Scalar(ScalarView::Single(x))),
            Err(e) => Err(LowerErrorView::Reader(e)),
        },
        Item::I32 => match g.any_i32() {
            Ok(x) => Ok(ValueView::Scalar(ScalarView::I32(x))),
            Err(e) => Err(LowerErrorView::Reader(e)),
        },
        Item::U32 => match g.any_u32() {
            Ok(x) => Ok(ValueView::Scalar(ScalarView::U32(x))),
            Err(e) => Err(LowerErrorView::Reader(e)),
        },
        Item::Str => match g.any_string() {
            Ok(x) => Ok(ValueView::Scalar(ScalarView::Str(x))),
            Err(e) => Err(LowerErrorView::Reader(e)),
        },
        Item::Ref => match g.any() {
            Err(e) => Err(LowerErrorView::Reader(e)),
            Ok(e) => match env::reference(cx, e) {
                Ok(x) => Ok(ValueView::Scalar(ScalarView::DefIndex(x as i32))),
                Err(x) => Err(x),
            },
        },
    }
}

/// The one value of a group that says nothing else.
pub open spec fn lone_item(cx: Context, item: Item, g: ReaderView) -> Result<
    ValueView,
    LowerErrorView,
> {
    match item_from(cx, item, g) {
        Err(x) => Err(x),
        Ok(x) => match fields::used_up(g.without(PickView::Any)) {
            Err(x) => Err(x),
            Ok(_) => Ok(x),
        },
    }
}

/// A key.
pub open spec fn key_from(cx: Context, key: Key, e: Spanned<ExprView>) -> Result<
    ValueView,
    LowerErrorView,
> {
    match key {
        Key::I32 => match reader::located(eval::as_i32(cx.symbols, e.value), e.span) {
            Ok(x) => Ok(ValueView::Scalar(ScalarView::I32(x))),
            Err(x) => Err(LowerErrorView::Reader(x)),
        },
        Key::U32 => match reader::located(eval::as_u32(cx.symbols, e.value), e.span) {
            Ok(x) => Ok(ValueView::Scalar(ScalarView::U32(x))),
            Err(x) => Err(LowerErrorView::Reader(x)),
        },
        Key::Str => match reader::located(eval::as_string(e.value), e.span) {
            Ok(x) => Ok(ValueView::Scalar(ScalarView::Str(x))),
            Err(x) => Err(LowerErrorView::Reader(x)),
        },
    }
}

fn fill_value(item: Item) -> (r: Value)
    ensures
        r@ == filler(item),
{
    let r = Value::Scalar(
        match item {
            Item::Single => Scalar::Single(Single { bits: 0 }),
            Item::I32 => Scalar::I32(0),
            Item::U32 => Scalar::U32(0),
            Item::Str => Scalar::Str(String::new()),
            Item::Ref => Scalar::DefIndex(0),
        },
    );
    proof {
        value::lemma_value_view(r);
        match item {
            Item::Str => {
                assert(r->Scalar_0->Str_0@ =~= Seq::<char>::empty());
            },
            _ => {},
        }
    }
    r
}

fn read_item<'a, 's, E: LowerEnv>(item: Item, g: &mut DefReader<'a, 's>, env: &E) -> (r: Result<
    Scalar,
    LowerError,
>)
    ensures
        (match r {
            Ok(x) => Ok(ValueView::Scalar(x@)),
            Err(e) => Err(e@),
        }) == item_from(env::context(old(g)@.symbols, env), item, old(g)@),
        r is Ok ==> final(g)@ == old(g)@.without(PickView::Any),
{
    match item {
        Item::Single => match g.any_single() {
            Ok(x) => Ok(Scalar::Single(x)),
            Err(e) => Err(LowerError::Reader(e)),
        },
        Item::I32 => match g.any_i32() {
            Ok(x) => Ok(Scalar::I32(x)),
            Err(e) => Err(LowerError::Reader(e)),
        },
        Item::U32 => match g.any_u32() {
            Ok(x) => Ok(Scalar::U32(x)),
            Err(e) => Err(LowerError::Reader(e)),
        },
        Item::Str => match g.any_string() {
            Ok(x) => Ok(Scalar::Str(x)),
            Err(e) => Err(LowerError::Reader(e)),
        },
        Item::Ref => match g.any_expr() {
            Err(e) => Err(LowerError::Reader(e)),
            Ok(e) => match resolve_ref(&g.eval(), env, e) {
                Ok(x) => Ok(Scalar::DefIndex(x as i32)),
                Err(x) => Err(x),
            },
        },
    }
}

fn read_lone_item<'a, 's, E: LowerEnv>(
    item: Item,
    g: &mut DefReader<'a, 's>,
    env: &E,
) -> (r: Result<Value, LowerError>)
    ensures
        (match r {
            Ok(x) => Ok(x@),
            Err(e) => Err(e@),
        }) == lone_item(env::context(old(g)@.symbols, env), item, old(g)@),
{
    let x = match read_item(item, g, env) {
        Ok(x) => Value::Scalar(x),
        Err(e) => return Err(e),
    };
    proof {
        value::lemma_value_view(x);
    }
    match g.is_finished() {
        Ok(_) => Ok(x),
        Err(e) => Err(LowerError::Reader(e)),
    }
}

fn read_key(key: Key, expr: &Spanned<Expr>, eval: &Evaluator, cx: Ghost<Context>) -> (r: Result<
    Value,
    LowerError,
>)
    requires
        cx@.symbols == eval@,
    ensures
        (match r {
            Ok(x) => Ok(x@),
            Err(e) => Err(e@),
        }) == key_from(cx@, key, expr@),
{
    let x = match key {
        Key::I32 => match eval.eval_i32(expr) {
            Ok(x) => Scalar::I32(x),
            Err(e) => return Err(LowerError::Reader(e)),
        },
        Key::U32 => match eval.eval_u32(expr) {
            Ok(x) => Scalar::U32(x),
            Err(e) => return Err(LowerError::Reader(e)),
        },
        Key::Str => match eval.eval_string(expr) {
            Ok(x) => Scalar::Str(x),
            Err(e) => return Err(LowerError::Reader(e)),
        },
    };
    let r = Value::Scalar(x);
    proof {
        value::lemma_value_view(r);
    }
    Ok(r)
}

// ── Lists ────────────────────────────────────────────────────────────────────

/// The sequence with place `i` set, filled up as far as it needs.
pub open spec fn set_at(items: Seq<ValueView>, i: int, x: ValueView, fill: ValueView) -> Seq<
    ValueView,
> {
    if i < items.len() {
        items.update(i, x)
    } else {
        (items + Seq::new((i - items.len()) as nat, |j: int| fill)).push(x)
    }
}

/// Sets place `i`, filling up as far as it needs.
pub fn set_grow(items: &mut Vec<Value>, i: usize, x: Value, fill: &Value)
    ensures
        base::views(final(items)@) == set_at(base::views(old(items)@), i as int, x@, fill@),
{
    let ghost before = base::views(items@);
    let ghost new = x@;
    if i < items.len() {
        items.set(i, x);
        assert(base::views(items@) =~= before.update(i as int, new));
        return;
    }
    while items.len() < i
        invariant
            before.len() <= items@.len() <= i,
            before == base::views(old(items)@),
            base::views(items@) == before + Seq::new(
                (items@.len() - before.len()) as nat,
                |j: int| fill@,
            ),
        decreases i - items@.len(),
    {
        let ghost k = items@.len() - before.len();
        items.push(fill.clone());
        assert(before + Seq::new((k + 1) as nat, |j: int| fill@) =~= (before + Seq::new(
            k as nat,
            |j: int| fill@,
        )).push(fill@));
    }
    items.push(x);
}

/// The list with the elements of the groups from `k` on.
pub open spec fn items_from(
    cx: Context,
    item: Item,
    items: Seq<ValueView>,
    groups: Seq<(usize, ReaderView)>,
    k: int,
) -> Result<Seq<ValueView>, LowerErrorView>
    decreases groups.len() - k,
{
    if k < 0 || k >= groups.len() {
        Ok(items)
    } else {
        match lone_item(cx, item, groups[k].1) {
            Err(x) => Err(x),
            Ok(x) => items_from(
                cx,
                item,
                set_at(items, groups[k].0 as int, x, filler(item)),
                groups,
                k + 1,
            ),
        }
    }
}

/// The list `name` with its elements set by their index.
pub open spec fn list_step(
    cx: Context,
    item: Item,
    l: ListView,
    name: Seq<char>,
    r: ReaderView,
) -> Result<ListView, LowerErrorView> {
    match r.by_index(name) {
        Err(e) => Err(LowerErrorView::Reader(e)),
        Ok(groups) => match items_from(cx, item, l.items, r.indexed_readers(groups), 0) {
            Ok(items) => Ok(ListView { items, ..l }),
            Err(x) => Err(x),
        },
    }
}

fn apply_items<'a, 's, E: LowerEnv>(
    item: Item,
    items: &mut Vec<Value>,
    name: &str,
    r: &mut DefReader<'a, 's>,
    env: &E,
) -> (res: Result<(), LowerError>)
    ensures
        match (res, old(r)@.by_index(name@)) {
            (Ok(_), Ok(groups)) => items_from(
                env::context(old(r)@.symbols, env),
                item,
                base::views(old(items)@),
                old(r)@.indexed_readers(groups),
                0,
            ) == Ok::<Seq<ValueView>, LowerErrorView>(base::views(final(items)@)) && final(r)@
                == old(r)@.without(PickView::Indexed(name@)),
            (Err(e), Ok(groups)) => items_from(
                env::context(old(r)@.symbols, env),
                item,
                base::views(old(items)@),
                old(r)@.indexed_readers(groups),
                0,
            ) == Err::<Seq<ValueView>, LowerErrorView>(e@),
            (Ok(_), Err(_)) => false,
            (Err(e), Err(f)) => e@ == LowerErrorView::Reader(f),
        },
{
    let ghost cx = env::context(r@.symbols, env);
    let mut groups = match r.indexed_sparse(name) {
        Ok(g) => g,
        Err(e) => return Err(LowerError::Reader(e)),
    };
    let ghost readers = reader::indexed_views(groups@);
    let ghost whole = items_from(cx, item, base::views(items@), readers, 0);
    let fill = fill_value(item);
    let n: usize = groups.len();
    let mut k: usize = 0;
    assert(forall|j: int|
        0 <= j < n ==> #[trigger] readers[j] == (groups@[j].0, groups@[j].1@));
    while k < n
        invariant
            k <= n,
            n == groups@.len(),
            n == readers.len(),
            cx == env::context(old(r)@.symbols, env),
            old(r)@.by_index(name@) is Ok,
            readers == old(r)@.indexed_readers(old(r)@.by_index(name@)->Ok_0),
            fill@ == filler(item),
            forall|j: int| 0 <= j < n ==> (#[trigger] readers[j]).1.symbols == old(r)@.symbols,
            forall|j: int|
                k <= j < n ==> #[trigger] readers[j] == (groups@[j].0, groups@[j].1@),
            whole == items_from(cx, item, base::views(old(items)@), readers, 0),
            whole == items_from(cx, item, base::views(items@), readers, k as int),
        decreases n - k,
    {
        assert(readers[k as int] == (groups@[k as int].0, groups@[k as int].1@));
        let x = match read_lone_item(item, &mut groups[k].1, env) {
            Ok(x) => x,
            Err(e) => return Err(e),
        };
        set_grow(items, groups[k].0, x, &fill);
        k = k + 1;
    }
    Ok(())
}

// ── Maps ─────────────────────────────────────────────────────────────────────

/// The map with the entries of the groups from `k` on.
pub open spec fn entries_from(
    cx: Context,
    key: Key,
    item: Item,
    m: MapView,
    groups: Seq<(Spanned<ExprView>, ReaderView)>,
    k: int,
) -> Result<MapView, LowerErrorView>
    decreases groups.len() - k,
{
    if k < 0 || k >= groups.len() {
        Ok(m)
    } else {
        match key_from(cx, key, groups[k].0) {
            Err(x) => Err(x),
            Ok(name) => match lone_item(cx, item, groups[k].1) {
                Err(x) => Err(x),
                Ok(x) => entries_from(cx, key, item, m.put(name, x), groups, k + 1),
            },
        }
    }
}

fn apply_entries<'a, 's, E: LowerEnv>(
    key: Key,
    item: Item,
    m: &mut Mapping,
    name: &str,
    r: &mut DefReader<'a, 's>,
    env: &E,
) -> (res: Result<(), LowerError>)
    ensures
        construct::outcome(res, final(m)@) == entries_from(
            env::context(old(r)@.symbols, env),
            key,
            item,
            old(m)@,
            old(r)@.keyed_readers(old(r)@.by_key(name@)),
            0,
        ),
        res is Ok ==> final(r)@ == old(r)@.without(PickView::Keyed(name@)),
{
    let eval = r.eval();
    let ghost cx = env::context(r@.symbols, env);
    let mut groups = r.keyed(name);
    let ghost readers = reader::keyed_views(groups@);
    let ghost whole = entries_from(cx, key, item, m@, readers, 0);
    let n: usize = groups.len();
    let mut k: usize = 0;
    assert(forall|j: int|
        0 <= j < n ==> #[trigger] readers[j] == (groups@[j].0@, groups@[j].1@));
    while k < n
        invariant
            k <= n,
            n == groups@.len(),
            n == readers.len(),
            eval@ == cx.symbols,
            cx == env::context(old(r)@.symbols, env),
            readers == old(r)@.keyed_readers(old(r)@.by_key(name@)),
            forall|j: int| 0 <= j < n ==> (#[trigger] readers[j]).1.symbols == old(r)@.symbols,
            forall|j: int|
                k <= j < n ==> #[trigger] readers[j] == (groups@[j].0@, groups@[j].1@),
            whole == entries_from(cx, key, item, old(m)@, readers, 0),
            whole == entries_from(cx, key, item, m@, readers, k as int),
        decreases n - k,
    {
        assert(readers[k as int] == (groups@[k as int].0@, groups@[k as int].1@));
        let entry_key = match read_key(key, groups[k].0, &eval, Ghost(cx)) {
            Ok(x) => x,
            Err(e) => return Err(e),
        };
        let x = match read_lone_item(item, &mut groups[k].1, env) {
            Ok(x) => x,
            Err(e) => return Err(e),
        };
        m.put(entry_key, x);
        k = k + 1;
    }
    Ok(())
}

// ── Strings ──────────────────────────────────────────────────────────────────

/// The list with the string of each call from `k` on.
pub open spec fn strings_from(items: Seq<ValueView>, calls: Seq<ArgsView>, k: int) -> Result<
    Seq<ValueView>,
    LowerErrorView,
>
    decreases calls.len() - k,
{
    if k < 0 || k >= calls.len() {
        Ok(items)
    } else {
        match calls[k].string(0) {
            Ok(s) => strings_from(
                items.push(ValueView::Scalar(ScalarView::Str(s))),
                calls,
                k + 1,
            ),
            Err(e) => Err(LowerErrorView::Reader(e)),
        }
    }
}

fn apply_strings<'a, 's>(items: &mut Vec<Value>, name: &str, r: &mut DefReader<'a, 's>) -> (res: Result<
    (),
    LowerError,
>)
    ensures
        (match res {
            Ok(_) => Ok(base::views(final(items)@)),
            Err(e) => Err(e@),
        }) == strings_from(base::views(old(items)@), old(r)@.call_args(name@, "Add"@), 0),
        final(r)@ == old(r)@.without(PickView::Calls(name@, "Add"@)),
{
    let calls = r.calls(name, "Add");
    let ghost all = base::views(calls@);
    let ghost whole = strings_from(base::views(items@), all, 0);
    let mut k: usize = 0;
    while k < calls.len()
        invariant
            k <= calls@.len(),
            all == base::views(calls@),
            all == old(r)@.call_args(name@, "Add"@),
            r@ == old(r)@.without(PickView::Calls(name@, "Add"@)),
            whole == strings_from(base::views(old(items)@), all, 0),
            whole == strings_from(base::views(items@), all, k as int),
        decreases calls@.len() - k,
    {
        assert(all[k as int] == calls@[k as int]@);
        match calls[k].string(0) {
            Ok(s) => {
                let x = Value::Scalar(Scalar::Str(s));
                proof {
                    value::lemma_value_view(x);
                }
                items.push(x);
            },
            Err(e) => return Err(LowerError::Reader(e)),
        }
        k = k + 1;
    }
    Ok(())
}

// ── Steps ────────────────────────────────────────────────────────────────────

/// The reader behind a step.
pub open spec fn step_after(s: Step, r: ReaderView) -> ReaderView {
    match s {
        Step::Field(name, _) => r.without(PickView::Leaf(name@)),
        Step::Strict(name, _) => r.without(PickView::Leaf(name@)),
        Step::Items(name, _) => r.without(PickView::Indexed(name@)),
        Step::Entries(name, _, _) => r.without(PickView::Keyed(name@)),
        Step::Strings(name) => r.without(PickView::Calls(name@, "Add"@)),
        Step::Sorted(_) => r,
    }
}

/// The fields with the one that a step is about set.
pub open spec fn step(cx: Context, s: Step, v: Seq<MemberView>, r: ReaderView) -> Result<
    Seq<MemberView>,
    LowerErrorView,
> {
    match s {
        Step::Field(name, how) => match r.value(PickView::Leaf(name@)) {
            None => Ok(v),
            Some(e) => match scalar_as(cx, how, v, e) {
                Ok(x) => Ok(value::with_member(v, name@, ValueView::Scalar(x))),
                Err(x) => Err(x),
            },
        },
        Step::Strict(name, kind) => match r.value(PickView::Leaf(name@)) {
            None => Ok(v),
            Some(e) => match reader::located(eval::as_i32(cx.symbols, e.value), e.span) {
                Err(x) => Err(LowerErrorView::Reader(x)),
                Ok(n) => match strict(table_of(v, name@), kind@, n) {
                    Ok(x) => Ok(value::with_member(v, name@, ValueView::Scalar(x))),
                    Err(x) => Err(x),
                },
            },
        },
        Step::Items(name, item) => match value::member(v, name@) {
            Some(ValueView::List(l)) => match list_step(cx, item, l, name@, r) {
                Ok(l) => Ok(value::with_member(v, name@, ValueView::List(l))),
                Err(x) => Err(x),
            },
            _ => env::semantic("field is not a list"@),
        },
        Step::Entries(name, key, item) => match value::member(v, name@) {
            Some(ValueView::Mapping(m)) => match entries_from(
                cx,
                key,
                item,
                m,
                r.keyed_readers(r.by_key(name@)),
                0,
            ) {
                Ok(m) => Ok(value::with_member(v, name@, ValueView::Mapping(m))),
                Err(x) => Err(x),
            },
            _ => env::semantic("field is not a map"@),
        },
        Step::Strings(name) => match value::member(v, name@) {
            Some(ValueView::List(l)) => match strings_from(
                l.items,
                r.call_args(name@, "Add"@),
                0,
            ) {
                Ok(items) => Ok(
                    value::with_member(v, name@, ValueView::List(ListView { items, ..l })),
                ),
                Err(x) => Err(x),
            },
            _ => env::semantic("field is not a list"@),
        },
        Step::Sorted(name) => match value::member(v, name@) {
            Some(ValueView::Mapping(m)) => Ok(
                value::with_member(v, name@, ValueView::Mapping(m.sorted())),
            ),
            _ => env::semantic("field is not a map"@),
        },
    }
}

/// The reader behind the steps from `k` on.
pub open spec fn run_after(steps: Seq<Step>, k: int, r: ReaderView) -> ReaderView
    decreases steps.len() - k,
{
    if k < 0 || k >= steps.len() {
        r
    } else {
        run_after(steps, k + 1, step_after(steps[k], r))
    }
}

/// The fields behind the steps from `k` on.
pub open spec fn run(
    cx: Context,
    steps: Seq<Step>,
    k: int,
    v: Seq<MemberView>,
    r: ReaderView,
) -> Result<Seq<MemberView>, LowerErrorView>
    decreases steps.len() - k,
{
    if k < 0 || k >= steps.len() {
        Ok(v)
    } else {
        match step(cx, steps[k], v, r) {
            Ok(v) => run(cx, steps, k + 1, v, step_after(steps[k], r)),
            Err(x) => Err(x),
        }
    }
}

fn set_scalar(v: &mut Vec<Member>, name: &str, x: Scalar)
    ensures
        base::views(final(v)@) == value::with_member(
            base::views(old(v)@),
            name@,
            ValueView::Scalar(x@),
        ),
{
    let x = Value::Scalar(x);
    proof {
        value::lemma_value_view(x);
    }
    set_member(v, name, x);
}

fn apply_field<'a, 's, E: LowerEnv>(
    name: &'static str,
    how: How,
    v: &mut Vec<Member>,
    r: &mut DefReader<'a, 's>,
    env: &E,
) -> (res: Result<(), LowerError>)
    ensures
        construct::outcome_members(res, final(v)@) == step(
            env::context(old(r)@.symbols, env),
            Step::Field(name, how),
            base::views(old(v)@),
            old(r)@,
        ),
        final(r)@ == old(r)@.without(PickView::Leaf(name@)),
{
    let eval = r.eval();
    match r.opt_expr(name) {
        None => Ok(()),
        Some(e) => match read_as(how, v, e, &eval, env) {
            Ok(x) => {
                set_scalar(v, name, x);
                Ok(())
            },
            Err(e) => Err(e),
        },
    }
}

fn apply_strict<'a, 's, E: LowerEnv>(
    name: &'static str,
    kind: &'static str,
    v: &mut Vec<Member>,
    r: &mut DefReader<'a, 's>,
    env: &E,
) -> (res: Result<(), LowerError>)
    ensures
        construct::outcome_members(res, final(v)@) == step(
            env::context(old(r)@.symbols, env),
            Step::Strict(name, kind),
            base::views(old(v)@),
            old(r)@,
        ),
        final(r)@ == old(r)@.without(PickView::Leaf(name@)),
{
    let eval = r.eval();
    match r.opt_expr(name) {
        None => Ok(()),
        Some(e) => match eval.eval_i32(e) {
            Ok(n) => {
                let allowed = read_table(v, name);
                if in_table(&allowed, n) {
                    set_scalar(v, name, Scalar::Enum { allowed, value: n });
                    Ok(())
                } else {
                    Err(invalid_value(kind, n))
                }
            },
            Err(e) => Err(LowerError::Reader(e)),
        },
    }
}

/// The place of a list.
fn find_list(v: &Vec<Member>, name: &str) -> (r: Option<usize>)
    ensures
        match r {
            Some(i) => i < v@.len() && i == value::member_place(base::views(v@), name@, 0)
                && v@[i as int].value is List && value::member(base::views(v@), name@)
                == Some(ValueView::List(v@[i as int].value->List_0@)),
            None => !(value::member(base::views(v@), name@) matches Some(ValueView::List(_))),
        },
{
    match find_member(v, name) {
        Some(i) => {
            proof {
                assert(base::views(v@)[i as int] == v@[i as int]@);
                value::lemma_value_view(v@[i as int].value);
            }
            match &v[i].value {
                Value::List(_) => Some(i),
                _ => None,
            }
        },
        None => None,
    }
}

/// The place of a map.
fn find_map(v: &Vec<Member>, name: &str) -> (r: Option<usize>)
    ensures
        match r {
            Some(i) => i < v@.len() && i == value::member_place(base::views(v@), name@, 0)
                && v@[i as int].value is Mapping && value::member(base::views(v@), name@)
                == Some(ValueView::Mapping(v@[i as int].value->Mapping_0@)),
            None => !(value::member(base::views(v@), name@) matches Some(ValueView::Mapping(_))),
        },
{
    match find_member(v, name) {
        Some(i) => {
            proof {
                assert(base::views(v@)[i as int] == v@[i as int]@);
                value::lemma_value_view(v@[i as int].value);
            }
            match &v[i].value {
                Value::Mapping(_) => Some(i),
                _ => None,
            }
        },
        None => None,
    }
}

fn apply_items_step<'a, 's, E: LowerEnv>(
    name: &'static str,
    item: Item,
    v: &mut Vec<Member>,
    r: &mut DefReader<'a, 's>,
    env: &E,
) -> (res: Result<(), LowerError>)
    ensures
        construct::outcome_members(res, final(v)@) == step(
            env::context(old(r)@.symbols, env),
            Step::Items(name, item),
            base::views(old(v)@),
            old(r)@,
        ),
        res is Ok ==> final(r)@ == old(r)@.without(PickView::Indexed(name@)),
{
    let ghost before = base::views(v@);
    let i = match find_list(v, name) {
        Some(i) => i,
        None => return Err(semantic_error("field is not a list")),
    };
    assert(before[i as int] == v@[i as int]@);
    match &mut v[i].value {
        Value::List(l) => match apply_items(item, &mut l.items, name, r, env) {
            Ok(_) => {},
            Err(e) => return Err(e),
        },
        _ => {},
    }
    proof {
        value::lemma_value_view(v@[i as int].value);
        assert(base::views(v@) =~= value::with_member(before, name@, v@[i as int].value@));
    }
    Ok(())
}

fn apply_strings_step<'a, 's, E: LowerEnv>(
    name: &'static str,
    v: &mut Vec<Member>,
    r: &mut DefReader<'a, 's>,
    env: &E,
) -> (res: Result<(), LowerError>)
    ensures
        construct::outcome_members(res, final(v)@) == step(
            env::context(old(r)@.symbols, env),
            Step::Strings(name),
            base::views(old(v)@),
            old(r)@,
        ),
        res is Ok ==> final(r)@ == old(r)@.without(PickView::Calls(name@, "Add"@)),
{
    let ghost before = base::views(v@);
    let i = match find_list(v, name) {
        Some(i) => i,
        None => return Err(semantic_error("field is not a list")),
    };
    assert(before[i as int] == v@[i as int]@);
    match &mut v[i].value {
        Value::List(l) => match apply_strings(&mut l.items, name, r) {
            Ok(_) => {},
            Err(e) => return Err(e),
        },
        _ => {},
    }
    proof {
        value::lemma_value_view(v@[i as int].value);
        assert(base::views(v@) =~= value::with_member(before, name@, v@[i as int].value@));
    }
    Ok(())
}

fn apply_entries_step<'a, 's, E: LowerEnv>(
    name: &'static str,
    key: Key,
    item: Item,
    v: &mut Vec<Member>,
    r: &mut DefReader<'a, 's>,
    env: &E,
) -> (res: Result<(), LowerError>)
    ensures
        construct::outcome_members(res, final(v)@) == step(
            env::context(old(r)@.symbols, env),
            Step::Entries(name, key, item),
            base::views(old(v)@),
            old(r)@,
        ),
        res is Ok ==> final(r)@ == old(r)@.without(PickView::Keyed(name@)),
{
    let ghost before = base::views(v@);
    let i = match find_map(v, name) {
        Some(i) => i,
        None => return Err(semantic_error("field is not a map")),
    };
    assert(before[i as int] == v@[i as int]@);
    match &mut v[i].value {
        Value::Mapping(m) => match apply_entries(key, item, m, name, r, env) {
            Ok(_) => {},
            Err(e) => return Err(e),
        },
        _ => {},
    }
    proof {
        value::lemma_value_view(v@[i as int].value);
        assert(base::views(v@) =~= value::with_member(before, name@, v@[i as int].value@));
    }
    Ok(())
}

fn apply_sorted_step(name: &'static str, v: &mut Vec<Member>) -> (res: Result<(), LowerError>)
    ensures
        forall|cx: Context, r: ReaderView|
            construct::outcome_members(res, final(v)@) == #[trigger] step(
                cx,
                Step::Sorted(name),
                base::views(old(v)@),
                r,
            ),
{
    let ghost before = base::views(v@);
    let i = match find_map(v, name) {
        Some(i) => i,
        None => return Err(semantic_error("field is not a map")),
    };
    assert(before[i as int] == v@[i as int]@);
    match &mut v[i].value {
        Value::Mapping(m) => m.sort(),
        _ => {},
    }
    proof {
        value::lemma_value_view(v@[i as int].value);
        assert(base::views(v@) =~= value::with_member(before, name@, v@[i as int].value@));
    }
    Ok(())
}

/// Takes one step.
fn apply_step<'a, 's, E: LowerEnv>(
    s: Step,
    v: &mut Vec<Member>,
    r: &mut DefReader<'a, 's>,
    env: &E,
) -> (res: Result<(), LowerError>)
    ensures
        construct::outcome_members(res, final(v)@) == step(
            env::context(old(r)@.symbols, env),
            s,
            base::views(old(v)@),
            old(r)@,
        ),
        res is Ok ==> final(r)@ == step_after(s, old(r)@),
{
    match s {
        Step::Field(name, how) => apply_field(name, how, v, r, env),
        Step::Strict(name, kind) => apply_strict(name, kind, v, r, env),
        Step::Items(name, item) => apply_items_step(name, item, v, r, env),
        Step::Entries(name, key, item) => apply_entries_step(name, key, item, v, r, env),
        Step::Strings(name) => apply_strings_step(name, v, r, env),
        Step::Sorted(name) => apply_sorted_step(name, v),
    }
}

/// Takes the steps in turn.
pub(crate) fn apply_steps<'a, 's, E: LowerEnv>(
    steps: &Vec<Step>,
    v: &mut Vec<Member>,
    r: &mut DefReader<'a, 's>,
    env: &E,
) -> (res: Result<(), LowerError>)
    ensures
        construct::outcome_members(res, final(v)@) == run(
            env::context(old(r)@.symbols, env),
            steps@,
            0,
            base::views(old(v)@),
            old(r)@,
        ),
        res is Ok ==> final(r)@ == run_after(steps@, 0, old(r)@),
{
    let ghost cx = env::context(r@.symbols, env);
    let ghost whole = run(cx, steps@, 0, base::views(v@), r@);
    let ghost end = run_after(steps@, 0, r@);
    let mut k: usize = 0;
    while k < steps.len()
        invariant
            k <= steps@.len(),
            r@.symbols == old(r)@.symbols,
            cx == env::context(old(r)@.symbols, env),
            whole == run(cx, steps@, 0, base::views(old(v)@), old(r)@),
            end == run_after(steps@, 0, old(r)@),
            whole == run(cx, steps@, k as int, base::views(v@), r@),
            end == run_after(steps@, k as int, r@),
        decreases steps@.len() - k,
    {
        match apply_step(steps[k], v, r, env) {
            Ok(_) => {},
            Err(e) => return Err(e),
        }
        k = k + 1;
    }
    Ok(())
}

} // verus!
