//! The symbols that declarations bind to numbers.

use vstd::prelude::*;

use crate::name_map::NameMap;
use crate::strings::same;
use crate::text::ast;
use crate::text::ast::{EnumDecl, EnumExpr, EnumExprView, EnumView, Item, ItemView, VariantView};
use crate::text::base;
use crate::text::base::{Span, Spanned};

verus! {

broadcast use base::group_views;

/// Why a declared value cannot be computed.
#[derive(Debug)]
pub enum SymbolEvalError {
    UnknownSymbol(String),
    InvalidShift(i64),
}

/// What a [`SymbolEvalError`] says.
pub enum SymbolErrorView {
    UnknownSymbol(Seq<char>),
    InvalidShift(i64),
}

impl View for SymbolEvalError {
    type V = SymbolErrorView;

    open spec fn view(&self) -> SymbolErrorView {
        match *self {
            SymbolEvalError::UnknownSymbol(s) => SymbolErrorView::UnknownSymbol(s@),
            SymbolEvalError::InvalidShift(n) => SymbolErrorView::InvalidShift(n),
        }
    }
}

/// A symbol that was already defined when a later definition overwrote it.
///
/// Not an error: overriding a symbol is a normal thing to do. It is reported so
/// that an unintended one is visible.
#[derive(Debug, Clone, PartialEq, Eq)]
pub struct Redefinition {
    pub name: String,
    /// The value that was in the table, now replaced.
    pub previous: i64,
    /// The value that won.
    pub value: i64,
}

/// What a [`Redefinition`] says.
pub struct RedefinitionView {
    pub name: Seq<char>,
    pub previous: i64,
    pub value: i64,
}

impl View for Redefinition {
    type V = RedefinitionView;

    open spec fn view(&self) -> RedefinitionView {
        RedefinitionView { name: self.name@, previous: self.previous, value: self.value }
    }
}

// ── Evaluation, mathematically ───────────────────────────────────────────────

/// Where evaluating declarations has got to: what is bound, what was rebound on
/// the way, and the error it stopped at, if it did.
pub struct Evaluation {
    pub table: Map<Seq<char>, i64>,
    pub redefined: Seq<Spanned<RedefinitionView>>,
    pub error: Option<Spanned<SymbolErrorView>>,
}

/// Bind `name` to `value`, recording what that overwrites, and where.
pub open spec fn define(st: Evaluation, name: Spanned<Seq<char>>, value: i64) -> Evaluation {
    Evaluation {
        table: st.table.insert(name.value, value),
        redefined: if st.table.dom().contains(name.value) {
            st.redefined.push(
                Spanned {
                    span: name.span,
                    value: RedefinitionView {
                        name: name.value,
                        previous: st.table[name.value],
                        value,
                    },
                },
            )
        } else {
            st.redefined
        },
        error: st.error,
    }
}

/// Where a declared expression starts: the place of its first number or name.
pub open spec fn enum_place(e: EnumExprView) -> Span
    decreases e,
{
    match e {
        EnumExprView::Int(n) => n.span,
        EnumExprView::Ident(s) => s.span,
        EnumExprView::Shift(v) => if v.len() > 0 {
            enum_place(v[0])
        } else {
            Span::nowhere()
        },
        EnumExprView::BitOr(v) => if v.len() > 0 {
            enum_place(v[0])
        } else {
            Span::nowhere()
        },
    }
}

/// The value of a declared expression, or what is wrong with it and where.
pub open spec fn enum_value(table: Map<Seq<char>, i64>, e: EnumExprView) -> Result<
    i64,
    Spanned<SymbolErrorView>,
>
    decreases e, 0nat,
{
    match e {
        EnumExprView::Int(n) => Ok(n.value),
        EnumExprView::Ident(s) => if table.dom().contains(s.value) {
            Ok(table[s.value])
        } else {
            Err(Spanned { span: s.span, value: SymbolErrorView::UnknownSymbol(s.value) })
        },
        EnumExprView::Shift(v) => if v.len() > 0 {
            match enum_value(table, v[0]) {
                Err(e) => Err(e),
                Ok(first) => shifted(table, v, 1, first),
            }
        } else {
            arbitrary()
        },
        EnumExprView::BitOr(v) => united(table, v, 0, 0),
    }
}

/// `acc` shifted left by the terms from `k` on, each of which must be below 64.
pub open spec fn shifted(
    table: Map<Seq<char>, i64>,
    v: Seq<EnumExprView>,
    k: int,
    acc: i64,
) -> Result<i64, Spanned<SymbolErrorView>>
    decreases v, v.len() - k,
{
    if k < 0 || k >= v.len() {
        Ok(acc)
    } else {
        match enum_value(table, v[k]) {
            Err(e) => Err(e),
            Ok(n) => if 0 <= n < 64 {
                shifted(table, v, k + 1, acc << n)
            } else {
                Err(Spanned { span: enum_place(v[k]), value: SymbolErrorView::InvalidShift(n) })
            },
        }
    }
}

/// `acc` or-ed with the terms from `k` on.
pub open spec fn united(
    table: Map<Seq<char>, i64>,
    v: Seq<EnumExprView>,
    k: int,
    acc: i64,
) -> Result<i64, Spanned<SymbolErrorView>>
    decreases v, v.len() - k,
{
    if k < 0 || k >= v.len() {
        Ok(acc)
    } else {
        match enum_value(table, v[k]) {
            Err(e) => Err(e),
            Ok(n) => united(table, v, k + 1, acc | n),
        }
    }
}

/// The value after `n`. The largest one is followed by the smallest.
pub open spec fn next_value(n: i64) -> i64 {
    if n == i64::MAX {
        i64::MIN
    } else {
        (n + 1) as i64
    }
}

/// The value that a variant without one has: one more than the variant before
/// it in the same enum, or 0 for the first.
pub open spec fn implied_value(last: Option<i64>) -> i64 {
    match last {
        Some(n) => next_value(n),
        None => 0,
    }
}

/// Evaluate the variants from `k` on. Numbering follows the enum being read,
/// not the table.
pub open spec fn variants_from(
    st: Evaluation,
    v: Seq<VariantView>,
    k: int,
    last: Option<i64>,
) -> Evaluation
    decreases v.len() - k,
{
    if k < 0 || k >= v.len() {
        st
    } else {
        let value = match v[k].value {
            Some(e) => enum_value(st.table, e),
            None => Ok(implied_value(last)),
        };
        match value {
            Err(e) => Evaluation { error: Some(e), ..st },
            Ok(n) => variants_from(define(st, v[k].name, n), v, k + 1, Some(n)),
        }
    }
}

/// Whether the condition of an `#ifdef` holds.
pub open spec fn holds(condition: Seq<char>) -> bool {
    condition == "_WINDOWS"@
}

/// Evaluate one item.
pub open spec fn item(st: Evaluation, x: ItemView) -> Evaluation
    decreases x, 0nat,
{
    match x {
        ItemView::Enum(e) => variants_from(st, e.variants, 0, None),
        ItemView::Define(d) => match d.value {
            Some(n) => define(st, d.name, n),
            None => st,
        },
        ItemView::Namespace { items, .. } => items_from(st, items, 0),
        ItemView::Conditional { condition, if_branch, else_branch, inverted } => {
            if holds(condition) != inverted {
                items_from(st, if_branch, 0)
            } else {
                match else_branch {
                    Some(b) => items_from(st, b, 0),
                    None => st,
                }
            }
        },
        ItemView::Definition(_) => st,
        ItemView::PragmaOnce(_) => st,
    }
}

/// Evaluate the items from `k` on, stopping at the first error.
pub open spec fn items_from(st: Evaluation, items: Seq<ItemView>, k: int) -> Evaluation
    decreases items, items.len() - k,
{
    if k < 0 || k >= items.len() {
        st
    } else {
        let next = item(st, items[k]);
        if next.error is Some {
            next
        } else {
            items_from(next, items, k + 1)
        }
    }
}

// ── The table ────────────────────────────────────────────────────────────────

/// Symbols bound to numbers.
pub struct SymbolTable {
    map: NameMap<i64>,
}

impl View for SymbolTable {
    type V = Map<Seq<char>, i64>;

    closed spec fn view(&self) -> Map<Seq<char>, i64> {
        self.map@
    }
}

impl Default for SymbolTable {
    fn default() -> (r: Self)
        ensures
            r@ == Map::<Seq<char>, i64>::empty(),
    {
        SymbolTable::new()
    }
}

/// What is found for `name` in a table.
pub open spec fn found<V>(table: Map<Seq<char>, V>, name: Seq<char>) -> Option<V> {
    if table.dom().contains(name) {
        Some(table[name])
    } else {
        None
    }
}

impl SymbolTable {
    /// The table that binds nothing.
    pub fn new() -> (r: Self)
        ensures
            r@ == Map::<Seq<char>, i64>::empty(),
    {
        SymbolTable { map: NameMap::new() }
    }

    /// The number bound to `name`.
    pub fn lookup(&self, name: &str) -> (r: Option<i64>)
        ensures
            r == found(self@, name@),
    {
        self.map.get(name)
    }

    /// How many symbols are bound.
    pub fn len(&self) -> (r: usize)
        ensures
            self@.dom().finite(),
            r == self@.dom().len(),
    {
        self.map.len()
    }

    pub fn is_empty(&self) -> (r: bool)
        ensures
            r == (self@ == Map::<Seq<char>, i64>::empty()),
    {
        let n = self.map.len();
        proof {
            if n == 0 {
                assert(self@.dom() =~= Set::<Seq<char>>::empty());
                assert(self@ =~= Map::<Seq<char>, i64>::empty());
            }
        }
        n == 0
    }

    /// Every binding, each once.
    pub fn iter(&self) -> (r: Vec<(&str, i64)>)
        ensures
            self@.dom().finite(),
            r@.len() == self@.dom().len(),
            forall|i: int|
                0 <= i < r@.len() ==> self@.dom().contains((#[trigger] r@[i]).0@)
                    && self@[r@[i].0@] == r@[i].1,
            forall|name: Seq<char>| #[trigger]
                self@.dom().contains(name) ==> exists|i: int|
                    0 <= i < r@.len() && (#[trigger] r@[i]).0@ == name,
    {
        let n = self.map.len();
        let mut out: Vec<(&str, i64)> = Vec::new();
        let mut i: usize = 0;
        while i < n
            invariant
                i <= n,
                n == self.map.bindings().len(),
                out@.len() == i,
                forall|j: int|
                    0 <= j < i ==> self@.dom().contains((#[trigger] out@[j]).0@)
                        && self@[out@[j].0@] == out@[j].1 && out@[j].0@
                        == self.map.bindings()[j].0,
            decreases n - i,
        {
            out.push(self.map.entry(i));
            i = i + 1;
        }
        proof {
            self.map.lemma_bindings_cover();
            assert forall|name: Seq<char>| #[trigger]
                self@.dom().contains(name) implies exists|i: int|
                0 <= i < out@.len() && (#[trigger] out@[i]).0@ == name by {
                let k = choose|k: int|
                    0 <= k < self.map.bindings().len() && (#[trigger] self.map.bindings()[k]).0
                        == name;
                assert(out@[k].0@ == name);
            }
        }
        out
    }

    /// Bind `name` to `value`, giving the value it replaces, if any. The last
    /// definition wins.
    pub fn insert(&mut self, name: &str, value: i64) -> (r: Option<i64>)
        ensures
            final(self)@ == old(self)@.insert(name@, value),
            r == found(old(self)@, name@),
    {
        self.map.insert(name, value)
    }

    /// Evaluate declarations into the table, giving every symbol that was
    /// redefined on the way, with the place of the name. Definitions are skipped. If an
    /// expression cannot be evaluated, what was declared before it stays in the table,
    /// and the error says where the expression is.
    pub fn evaluate_located(&mut self, items: &Vec<Item>) -> (r: Result<
        Vec<Spanned<Redefinition>>,
        Spanned<SymbolEvalError>,
    >)
        requires
            ast::all_sound(base::views(items@)),
        ensures
            ({
                let st = Evaluation { table: old(self)@, redefined: Seq::empty(), error: None };
                let end = items_from(st, base::views(items@), 0);
                &&& final(self)@ == end.table
                &&& match r {
                    Ok(v) => end.error is None && base::views(v@) == end.redefined,
                    Err(e) => end.error == Some(e@),
                }
            }),
    {
        let mut redefined: Vec<Spanned<Redefinition>> = Vec::new();
        assert(base::views(redefined@) =~= Seq::empty());
        match self.evaluate_all(items, &mut redefined) {
            Ok(_) => Ok(redefined),
            Err(e) => Err(e),
        }
    }

    /// As [`SymbolTable::evaluate_located`], without the places.
    pub fn evaluate_items(&mut self, items: &Vec<Item>) -> (r: Result<
        Vec<Redefinition>,
        SymbolEvalError,
    >)
        requires
            ast::all_sound(base::views(items@)),
        ensures
            ({
                let st = Evaluation { table: old(self)@, redefined: Seq::empty(), error: None };
                let end = items_from(st, base::views(items@), 0);
                &&& final(self)@ == end.table
                &&& match r {
                    Ok(v) => end.error is None && base::views(v@) == unplaced(end.redefined),
                    Err(e) => end.error matches Some(x) && x.value == e@,
                }
            }),
    {
        match self.evaluate_located(items) {
            Ok(redefined) => Ok(without_places(redefined)),
            Err(e) => Err(e.value),
        }
    }

    fn evaluate_all(&mut self, items: &Vec<Item>, redefined: &mut Vec<Spanned<Redefinition>>) -> (r: Result<
        (),
        Spanned<SymbolEvalError>,
    >)
        requires
            ast::all_sound(base::views(items@)),
        ensures
            ({
                let st = Evaluation {
                    table: old(self)@,
                    redefined: base::views(old(redefined)@),
                    error: None,
                };
                let end = items_from(st, base::views(items@), 0);
                &&& final(self)@ == end.table
                &&& base::views(final(redefined)@) == end.redefined
                &&& match r {
                    Ok(_) => end.error is None,
                    Err(e) => end.error == Some(e@),
                }
            }),
        decreases items,
    {
        let ghost st = Evaluation {
            table: self@,
            redefined: base::views(redefined@),
            error: None,
        };
        let ghost whole = items_from(st, base::views(items@), 0);
        let mut k: usize = 0;
        while k < items.len()
            invariant
                k <= items@.len(),
                ast::all_sound(base::views(items@)),
                whole == items_from(
                    Evaluation {
                        table: old(self)@,
                        redefined: base::views(old(redefined)@),
                        error: None,
                    },
                    base::views(items@),
                    0,
                ),
                items_from(
                    Evaluation { table: self@, redefined: base::views(redefined@), error: None },
                    base::views(items@),
                    k as int,
                ) == whole,
            decreases items@.len() - k,
        {
            assert(base::views(items@)[k as int] == items@[k as int]@);
            match self.evaluate_item(&items[k], redefined) {
                Ok(_) => {},
                Err(e) => return Err(e),
            }
            k = k + 1;
        }
        Ok(())
    }

    fn evaluate_item(&mut self, x: &Item, redefined: &mut Vec<Spanned<Redefinition>>) -> (r: Result<
        (),
        Spanned<SymbolEvalError>,
    >)
        requires
            x@.sound(),
        ensures
            ({
                let st = Evaluation {
                    table: old(self)@,
                    redefined: base::views(old(redefined)@),
                    error: None,
                };
                let end = item(st, x@);
                &&& final(self)@ == end.table
                &&& base::views(final(redefined)@) == end.redefined
                &&& match r {
                    Ok(_) => end.error is None,
                    Err(e) => end.error == Some(e@),
                }
            }),
        decreases x,
    {
        proof {
            ast::lemma_item_view(*x);
        }
        match x {
            Item::Enum(decl) => self.evaluate_enum(decl, redefined),
            Item::Define(d) => {
                match d.value {
                    Some(value) => self.define(&d.name, value, redefined),
                    None => {},
                }
                Ok(())
            },
            Item::Namespace(ns) => self.evaluate_all(&ns.items, redefined),
            Item::Conditional(c) => {
                if self.is_defined(c.condition.as_str()) != c.inverted {
                    self.evaluate_all(&c.if_branch, redefined)
                } else {
                    match &c.else_branch {
                        Some(b) => self.evaluate_all(b, redefined),
                        None => Ok(()),
                    }
                }
            },
            Item::Definition(_) => Ok(()),
            Item::PragmaOnce(_) => Ok(()),
        }
    }

    fn evaluate_enum(&mut self, decl: &EnumDecl, redefined: &mut Vec<Spanned<Redefinition>>) -> (r: Result<
        (),
        Spanned<SymbolEvalError>,
    >)
        requires
            ItemView::Enum(decl@).sound(),
        ensures
            ({
                let st = Evaluation {
                    table: old(self)@,
                    redefined: base::views(old(redefined)@),
                    error: None,
                };
                let end = variants_from(st, decl@.variants, 0, None);
                &&& final(self)@ == end.table
                &&& base::views(final(redefined)@) == end.redefined
                &&& match r {
                    Ok(_) => end.error is None,
                    Err(e) => end.error == Some(e@),
                }
            }),
    {
        let mut last: Option<i64> = None;
        let mut k: usize = 0;
        while k < decl.variants.len()
            invariant
                k <= decl.variants@.len(),
                ItemView::Enum(decl@).sound(),
                variants_from(
                    Evaluation { table: self@, redefined: base::views(redefined@), error: None },
                    decl@.variants,
                    k as int,
                    last,
                ) == variants_from(
                    Evaluation {
                        table: old(self)@,
                        redefined: base::views(old(redefined)@),
                        error: None,
                    },
                    decl@.variants,
                    0,
                    None,
                ),
            decreases decl.variants@.len() - k,
        {
            let variant = &decl.variants[k];
            assert(decl@.variants[k as int] == variant@);
            let value = match &variant.value {
                Some(e) => match self.evaluate_enum_expr(e) {
                    Ok(n) => n,
                    Err(e) => return Err(e),
                },
                None => match last {
                    Some(n) => if n == i64::MAX {
                        i64::MIN
                    } else {
                        n + 1
                    },
                    None => 0,
                },
            };
            self.define(&variant.name, value, redefined);
            last = Some(value);
            k = k + 1;
        }
        Ok(())
    }

    /// Insert, recording a redefinition if the name was already bound.
    fn define(&mut self, name: &Spanned<String>, value: i64, redefined: &mut Vec<Spanned<Redefinition>>)
        ensures
            ({
                let end = define(
                    Evaluation {
                        table: old(self)@,
                        redefined: base::views(old(redefined)@),
                        error: None,
                    },
                    name@,
                    value,
                );
                final(self)@ == end.table && base::views(final(redefined)@) == end.redefined
            }),
    {
        match self.insert(name.value.as_str(), value) {
            Some(previous) => {
                let r = Redefinition { name: name.value.clone(), previous, value };
                redefined.push(Spanned { span: name.span, value: r });
            },
            None => {},
        }
    }

    fn is_defined(&self, condition: &str) -> (r: bool)
        ensures
            r == holds(condition@),
    {
        same(condition, "_WINDOWS")
    }

    fn evaluate_enum_expr(&self, e: &EnumExpr) -> (r: Result<i64, Spanned<SymbolEvalError>>)
        requires
            e@.sound(),
        ensures
            (match r {
                Ok(n) => Ok(n),
                Err(e) => Err(e@),
            }) == enum_value(self@, e@),
        decreases e,
    {
        proof {
            ast::lemma_enum_expr_view(*e);
        }
        match e {
            EnumExpr::Int(n) => Ok(n.value),
            EnumExpr::Ident(s) => match self.lookup(s.value.as_str()) {
                Some(n) => Ok(n),
                None => Err(
                    Spanned {
                        span: s.span,
                        value: SymbolEvalError::UnknownSymbol(s.value.clone()),
                    },
                ),
            },
            EnumExpr::Shift(terms) => {
                let ghost v = base::views(terms@);
                assert(v[0] == terms@[0]@);
                let mut acc = match self.evaluate_enum_expr(&terms[0]) {
                    Ok(n) => n,
                    Err(e) => return Err(e),
                };
                let mut k: usize = 1;
                while k < terms.len()
                    invariant
                        1 <= k <= terms@.len(),
                        v == base::views(terms@),
                        *e == EnumExpr::Shift(*terms),
                        e@ == EnumExprView::Shift(v),
                        e@.sound(),
                        shifted(self@, v, k as int, acc) == enum_value(self@, e@),
                    decreases terms@.len() - k,
                {
                    assert(v[k as int] == terms@[k as int]@);
                    let n = match self.evaluate_enum_expr(&terms[k]) {
                        Ok(n) => n,
                        Err(e) => return Err(e),
                    };
                    if n < 0 || n >= 64 {
                        return Err(
                            Spanned {
                                span: place_of(&terms[k]),
                                value: SymbolEvalError::InvalidShift(n),
                            },
                        );
                    }
                    acc = acc << n;
                    k = k + 1;
                }
                Ok(acc)
            },
            EnumExpr::BitOr(terms) => {
                let ghost v = base::views(terms@);
                let mut acc: i64 = 0;
                let mut k: usize = 0;
                while k < terms.len()
                    invariant
                        k <= terms@.len(),
                        v == base::views(terms@),
                        *e == EnumExpr::BitOr(*terms),
                        e@ == EnumExprView::BitOr(v),
                        e@.sound(),
                        united(self@, v, k as int, acc) == enum_value(self@, e@),
                    decreases terms@.len() - k,
                {
                    assert(v[k as int] == terms@[k as int]@);
                    let n = match self.evaluate_enum_expr(&terms[k]) {
                        Ok(n) => n,
                        Err(e) => return Err(e),
                    };
                    acc = acc | n;
                    k = k + 1;
                }
                Ok(acc)
            },
        }
    }
}

/// Redefinitions without their places.
pub open spec fn unplaced(v: Seq<Spanned<RedefinitionView>>) -> Seq<RedefinitionView> {
    Seq::new(v.len(), |i: int| v[i].value)
}

fn without_places(v: Vec<Spanned<Redefinition>>) -> (r: Vec<Redefinition>)
    ensures
        base::views(r@) == unplaced(base::views(v@)),
{
    let mut out: Vec<Redefinition> = Vec::new();
    let mut i: usize = 0;
    while i < v.len()
        invariant
            i <= v@.len(),
            base::views(out@) == unplaced(base::views(v@)).take(i as int),
        decreases v@.len() - i,
    {
        let x = &v[i].value;
        assert(base::views(v@)[i as int] == v@[i as int]@);
        out.push(Redefinition { name: x.name.clone(), previous: x.previous, value: x.value });
        i = i + 1;
        assert(base::views(out@) =~= unplaced(base::views(v@)).take(i as int));
    }
    assert(base::views(out@) =~= unplaced(base::views(v@)));
    out
}

fn place_of(e: &EnumExpr) -> (r: Span)
    ensures
        r == enum_place(e@),
    decreases e,
{
    proof {
        ast::lemma_enum_expr_view(*e);
    }
    match e {
        EnumExpr::Int(n) => n.span,
        EnumExpr::Ident(s) => s.span,
        EnumExpr::Shift(v) => {
            if v.len() > 0 {
                assert(base::views(v@)[0] == v@[0]@);
                place_of(&v[0])
            } else {
                Span::synthetic()
            }
        },
        EnumExpr::BitOr(v) => {
            if v.len() > 0 {
                assert(base::views(v@)[0] == v@[0]@);
                place_of(&v[0])
            } else {
                Span::synthetic()
            }
        },
    }
}

// ── Laws ─────────────────────────────────────────────────────────────────────

/// Whether an evaluation has gone on to `after` from `before`: every name that was
/// bound is still bound, and what was recorded is still recorded.
pub open spec fn extends(before: Evaluation, after: Evaluation) -> bool {
    &&& before.table.dom().subset_of(after.table.dom())
    &&& before.redefined.is_prefix_of(after.redefined)
}

proof fn lemma_variants_extend(st: Evaluation, v: Seq<VariantView>, k: int, last: Option<i64>)
    ensures
        extends(st, variants_from(st, v, k, last)),
    decreases v.len() - k,
{
    if 0 <= k < v.len() {
        let value = match v[k].value {
            Some(e) => enum_value(st.table, e),
            None => Ok(implied_value(last)),
        };
        if let Ok(n) = value {
            lemma_variants_extend(define(st, v[k].name, n), v, k + 1, Some(n));
        }
    }
}

proof fn lemma_item_extends(st: Evaluation, x: ItemView)
    ensures
        extends(st, item(st, x)),
    decreases x, 0nat,
{
    match x {
        ItemView::Enum(e) => lemma_variants_extend(st, e.variants, 0, None),
        ItemView::Namespace { items, .. } => evaluating_unbinds_nothing(st, items, 0),
        ItemView::Conditional { condition, if_branch, else_branch, inverted } => {
            evaluating_unbinds_nothing(st, if_branch, 0);
            if let Some(b) = else_branch {
                evaluating_unbinds_nothing(st, b, 0);
            }
        },
        _ => {},
    }
}

/// Evaluating headers only adds to what is known: no name is ever unbound, and no
/// redefinition that was recorded is dropped, whether or not an error comes up.
pub proof fn evaluating_unbinds_nothing(st: Evaluation, items: Seq<ItemView>, k: int)
    ensures
        extends(st, items_from(st, items, k)),
    decreases items, items.len() - k,
{
    if 0 <= k < items.len() {
        let next = item(st, items[k]);
        lemma_item_extends(st, items[k]);
        if next.error is None {
            evaluating_unbinds_nothing(next, items, k + 1);
        }
    }
}

/// The last definition of a name wins, and a redefinition is recorded exactly when
/// the name was bound before, with both values and the place of the name.
pub proof fn the_last_definition_wins(st: Evaluation, name: Spanned<Seq<char>>, value: i64)
    ensures
        found(define(st, name, value).table, name.value) == Some(value),
        forall|other: Seq<char>|
            other != name.value ==> #[trigger] found(define(st, name, value).table, other) == found(
                st.table,
                other,
            ),
        define(st, name, value).redefined == match found(st.table, name.value) {
            Some(previous) => st.redefined.push(
                Spanned {
                    span: name.span,
                    value: RedefinitionView { name: name.value, previous, value },
                },
            ),
            None => st.redefined,
        },
{
}

/// A `#define` without a value, a `#pragma once` and a definition bind nothing.
pub proof fn a_define_without_a_value_binds_nothing(st: Evaluation, x: ItemView)
    requires
        match x {
            ItemView::Define(d) => d.value is None,
            ItemView::PragmaOnce(_) => true,
            ItemView::Definition(_) => true,
            _ => false,
        },
    ensures
        item(st, x) == st,
{
}

proof fn lemma_variants_count(st: Evaluation, v: Seq<VariantView>, k: int)
    requires
        0 <= k <= v.len() <= i64::MAX,
        st.error is None,
        forall|i: int| k <= i < v.len() ==> (#[trigger] v[i]).value is None,
        forall|i: int, j: int| 0 <= i < j < v.len() ==> v[i].name.value != v[j].name.value,
        forall|i: int| 0 <= i < k ==> found(st.table, (#[trigger] v[i]).name.value) == Some(i as i64),
    ensures
        ({
            let last = if k == 0 { None } else { Some((k - 1) as i64) };
            let after = variants_from(st, v, k, last);
            &&& after.error is None
            &&& forall|i: int|
                0 <= i < v.len() ==> found(after.table, (#[trigger] v[i]).name.value) == Some(i as i64)
        }),
    decreases v.len() - k,
{
    if k < v.len() {
        let next = define(st, v[k].name, k as i64);
        assert(v[k].value is None);
        assert forall|i: int| 0 <= i < k + 1 implies found(
            next.table,
            (#[trigger] v[i]).name.value,
        ) == Some(i as i64) by {
            if i < k {
                assert(v[i].name.value != v[k].name.value);
            }
        }
        lemma_variants_count(next, v, k + 1);
    }
}

/// The variants of an enum that gives no values count up from 0, whatever symbols
/// there were before.
pub proof fn variants_without_values_count_up(st: Evaluation, e: EnumView)
    requires
        st.error is None,
        e.variants.len() <= i64::MAX,
        forall|i: int| 0 <= i < e.variants.len() ==> (#[trigger] e.variants[i]).value is None,
        forall|i: int, j: int|
            0 <= i < j < e.variants.len() ==> e.variants[i].name.value != e.variants[j].name.value,
    ensures
        item(st, ItemView::Enum(e)).error is None,
        forall|i: int|
            0 <= i < e.variants.len() ==> found(
                item(st, ItemView::Enum(e)).table,
                (#[trigger] e.variants[i]).name.value,
            ) == Some(i as i64),
{
    lemma_variants_count(st, e.variants, 0);
}

/// An evaluation before which something was recorded.
spec fn behind(st: Evaluation, r: Seq<Spanned<RedefinitionView>>) -> Evaluation {
    Evaluation { redefined: r + st.redefined, ..st }
}

proof fn lemma_define_behind(
    st: Evaluation,
    r: Seq<Spanned<RedefinitionView>>,
    name: Spanned<Seq<char>>,
    value: i64,
)
    ensures
        define(behind(st, r), name, value) == behind(define(st, name, value), r),
{
    assert(define(behind(st, r), name, value).redefined =~= behind(
        define(st, name, value),
        r,
    ).redefined);
}

proof fn lemma_variants_behind(
    st: Evaluation,
    r: Seq<Spanned<RedefinitionView>>,
    v: Seq<VariantView>,
    k: int,
    last: Option<i64>,
)
    ensures
        variants_from(behind(st, r), v, k, last) == behind(variants_from(st, v, k, last), r),
    decreases v.len() - k,
{
    if 0 <= k < v.len() {
        let value = match v[k].value {
            Some(e) => enum_value(st.table, e),
            None => Ok(implied_value(last)),
        };
        if let Ok(n) = value {
            lemma_define_behind(st, r, v[k].name, n);
            lemma_variants_behind(define(st, v[k].name, n), r, v, k + 1, Some(n));
        }
    }
}

proof fn lemma_item_behind(st: Evaluation, r: Seq<Spanned<RedefinitionView>>, x: ItemView)
    ensures
        item(behind(st, r), x) == behind(item(st, x), r),
    decreases x, 0nat,
{
    match x {
        ItemView::Enum(e) => lemma_variants_behind(st, r, e.variants, 0, None),
        ItemView::Define(d) => if let Some(n) = d.value {
            lemma_define_behind(st, r, d.name, n);
        },
        ItemView::Namespace { items, .. } => lemma_items_behind(st, r, items, 0),
        ItemView::Conditional { condition, if_branch, else_branch, inverted } => {
            lemma_items_behind(st, r, if_branch, 0);
            if let Some(b) = else_branch {
                lemma_items_behind(st, r, b, 0);
            }
        },
        _ => {},
    }
}

proof fn lemma_items_behind(
    st: Evaluation,
    r: Seq<Spanned<RedefinitionView>>,
    items: Seq<ItemView>,
    k: int,
)
    ensures
        items_from(behind(st, r), items, k) == behind(items_from(st, items, k), r),
    decreases items, items.len() - k,
{
    if 0 <= k < items.len() {
        let next = item(st, items[k]);
        lemma_item_behind(st, r, items[k]);
        if next.error is None {
            lemma_items_behind(next, r, items, k + 1);
        }
    }
}

proof fn lemma_second_list(st: Evaluation, a: Seq<ItemView>, b: Seq<ItemView>, k: int)
    requires
        0 <= k <= b.len(),
    ensures
        items_from(st, a + b, a.len() + k) == items_from(st, b, k),
    decreases b.len() - k,
{
    if k < b.len() {
        assert((a + b)[a.len() + k] == b[k]);
        let next = item(st, b[k]);
        if next.error is None {
            lemma_second_list(next, a, b, k + 1);
        }
    }
}

proof fn lemma_first_list(st: Evaluation, a: Seq<ItemView>, b: Seq<ItemView>, k: int)
    requires
        0 <= k <= a.len(),
        st.error is None,
    ensures
        ({
            let mid = items_from(st, a, k);
            items_from(st, a + b, k) == if mid.error is Some {
                mid
            } else {
                items_from(mid, b, 0)
            }
        }),
    decreases a.len() - k,
{
    if k < a.len() {
        assert((a + b)[k] == a[k]);
        let next = item(st, a[k]);
        if next.error is None {
            lemma_first_list(next, a, b, k + 1);
        }
    } else {
        lemma_second_list(st, a, b, 0);
    }
}

/// An evaluation that starts from a table.
pub open spec fn fresh(table: Map<Seq<char>, i64>) -> Evaluation {
    Evaluation { table, redefined: Seq::empty(), error: None }
}

/// Evaluating two lists of declarations one after the other is evaluating the one behind the
/// other: what is bound, what is redefined on the way and the error, if there is one, are
/// the same.
pub proof fn lists_evaluate_one_after_the_other(
    table: Map<Seq<char>, i64>,
    a: Seq<ItemView>,
    b: Seq<ItemView>,
)
    ensures
        ({
            let both = items_from(fresh(table), a + b, 0);
            let first = items_from(fresh(table), a, 0);
            let second = items_from(fresh(first.table), b, 0);
            if first.error is Some {
                both == first
            } else {
                &&& both.table == second.table
                &&& both.error == second.error
                &&& both.redefined == first.redefined + second.redefined
            }
        }),
{
    let first = items_from(fresh(table), a, 0);
    lemma_first_list(fresh(table), a, b, 0);
    if first.error is None {
        let st = fresh(first.table);
        assert(behind(st, first.redefined).redefined =~= first.redefined);
        assert(behind(st, first.redefined) == first);
        lemma_items_behind(st, first.redefined, b, 0);
    }
}

} // verus!
