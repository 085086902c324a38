//! The syntax tree of a definition file, and its mathematical model.
//!
//! Each tree type has a view in which strings are character sequences and
//! vectors are sequences, all the way down.

use vstd::prelude::*;


use crate::name_map::NameMap;
use crate::strings::{chars_of, push_text};
use crate::text::base;
use crate::text::base::{Span, Spanned};

verus! {

broadcast use base::group_views;

/// One top-level construct. `.def`, `.tpl` and `.h` files are all sequences of
/// these.
#[derive(Debug)]
pub enum Item {
    Definition(Spanned<Definition>),
    Enum(EnumDecl),
    Define(Define),
    Namespace(Namespace),
    /// `#ifdef` / `#ifndef` … `#else` … `#endif`.
    Conditional(IfDef),
    /// `#pragma once`; it contributes no symbols.
    PragmaOnce(Span),
}

/// A parsed source file.
#[derive(Debug)]
pub struct SourceAst {
    pub items: Vec<Item>,
    /// Byte ranges that matched no item and were skipped, coalesced into runs.
    pub ignored: Vec<Span>,
}

#[derive(Debug)]
pub struct Definition {
    pub is_template: bool,
    pub def_type: String,
    pub name: String,
    pub specializes: Option<String>,
    pub specializes_span: Option<Span>,
    pub body: Vec<Spanned<Statement>>,
}

#[derive(Debug)]
pub enum Statement {
    Field(Field),
    MethodCall(MethodCall),
    TaggedBlock(TaggedBlock),
}

#[derive(Debug)]
pub struct Field {
    pub path: PropertyPath,
    pub expr: Spanned<Expr>,
}

#[derive(Debug)]
pub struct MethodCall {
    pub object: PropertyPath,
    pub call: Call,
}

#[derive(Debug)]
pub struct TaggedBlock {
    pub tag: String,
    pub body: Vec<Spanned<Statement>>,
}

#[derive(Debug)]
pub struct PropertyPath {
    pub segments: Vec<PathSegment>,
}

#[derive(Debug)]
pub enum PathSegment {
    Field(String),
    Index(Spanned<Expr>),
}

#[derive(Debug, PartialEq)]
pub enum Expr {
    /// A numeric literal, kept as its source text (optional leading `-`, digits,
    /// optional fraction, optional trailing `f`). How it is read depends on the
    /// type of the field that it is for.
    Number(String),
    Bool(bool),
    String(String),
    Symbol(String),
    Constructor(Call),
    BitOr(Vec<Spanned<Expr>>),
    Add(Vec<Spanned<Expr>>),
}

#[derive(Debug, PartialEq)]
pub struct Call {
    pub name: String,
    pub arguments: Vec<Spanned<Expr>>,
}

#[derive(Debug)]
pub struct EnumDecl {
    pub name: Option<Spanned<String>>,
    pub variants: Vec<EnumVariant>,
}

#[derive(Debug)]
pub struct EnumVariant {
    pub name: Spanned<String>,
    pub value: Option<EnumExpr>,
}

#[derive(Debug)]
pub enum EnumExpr {
    Int(Spanned<i64>),
    Ident(Spanned<String>),
    Shift(Vec<EnumExpr>),
    BitOr(Vec<EnumExpr>),
}

#[derive(Debug)]
pub struct Define {
    pub name: Spanned<String>,
    /// `None` for a valueless `#define NAME`, which contributes no symbol.
    pub value: Option<i64>,
}

#[derive(Debug)]
pub struct Namespace {
    pub name: String,
    pub items: Vec<Item>,
}

#[derive(Debug)]
pub struct IfDef {
    pub condition: String,
    pub if_branch: Vec<Item>,
    pub else_branch: Option<Vec<Item>>,
    pub inverted: bool,
}

// ── Views of expressions ─────────────────────────────────────────────────────

/// What an [`Expr`] says.
pub enum ExprView {
    Number(Seq<char>),
    Bool(bool),
    String(Seq<char>),
    Symbol(Seq<char>),
    Constructor(CallView),
    BitOr(Seq<Spanned<ExprView>>),
    Add(Seq<Spanned<ExprView>>),
}

/// What a [`Call`] says.
pub struct CallView {
    pub name: Seq<char>,
    pub arguments: Seq<Spanned<ExprView>>,
}

/// The view of an expression, by recursion over its parts.
pub open spec fn expr_view(e: Expr) -> ExprView
    decreases e,
{
    match e {
        Expr::Number(s) => ExprView::Number(s@),
        Expr::Bool(b) => ExprView::Bool(b),
        Expr::String(s) => ExprView::String(s@),
        Expr::Symbol(s) => ExprView::Symbol(s@),
        Expr::Constructor(c) => ExprView::Constructor(
            CallView {
                name: c.name@,
                arguments: Seq::new(
                    c.arguments@.len(),
                    |i: int|
                        if 0 <= i < c.arguments@.len() {
                            Spanned {
                                span: c.arguments@[i].span,
                                value: expr_view(c.arguments@[i].value),
                            }
                        } else {
                            arbitrary()
                        },
                ),
            },
        ),
        Expr::BitOr(v) => ExprView::BitOr(
            Seq::new(
                v@.len(),
                |i: int|
                    if 0 <= i < v@.len() {
                        Spanned { span: v@[i].span, value: expr_view(v@[i].value) }
                    } else {
                        arbitrary()
                    },
            ),
        ),
        Expr::Add(v) => ExprView::Add(
            Seq::new(
                v@.len(),
                |i: int|
                    if 0 <= i < v@.len() {
                        Spanned { span: v@[i].span, value: expr_view(v@[i].value) }
                    } else {
                        arbitrary()
                    },
            ),
        ),
    }
}

impl View for Expr {
    type V = ExprView;

    open spec fn view(&self) -> ExprView {
        expr_view(*self)
    }
}

impl View for Call {
    type V = CallView;

    open spec fn view(&self) -> CallView {
        CallView { name: self.name@, arguments: base::views(self.arguments@) }
    }
}

/// The view of an expression in terms of the views of its parts.
pub proof fn lemma_expr_view(e: Expr)
    ensures
        match e {
            Expr::Number(s) => e@ == ExprView::Number(s@),
            Expr::Bool(b) => e@ == ExprView::Bool(b),
            Expr::String(s) => e@ == ExprView::String(s@),
            Expr::Symbol(s) => e@ == ExprView::Symbol(s@),
            Expr::Constructor(c) => e@ == ExprView::Constructor(c@),
            Expr::BitOr(v) => e@ == ExprView::BitOr(base::views(v@)),
            Expr::Add(v) => e@ == ExprView::Add(base::views(v@)),
        },
{
    match e {
        Expr::Constructor(c) => {
            assert(e@->Constructor_0.arguments =~= base::views(c.arguments@));
        },
        Expr::BitOr(v) => {
            assert(e@->BitOr_0 =~= base::views(v@));
        },
        Expr::Add(v) => {
            assert(e@->Add_0 =~= base::views(v@));
        },
        _ => {},
    }
}

// ── Views of statements and definitions ──────────────────────────────────────

/// What a [`PathSegment`] says.
pub enum SegmentView {
    Field(Seq<char>),
    Index(Spanned<ExprView>),
}

impl View for PathSegment {
    type V = SegmentView;

    open spec fn view(&self) -> SegmentView {
        match *self {
            PathSegment::Field(s) => SegmentView::Field(s@),
            PathSegment::Index(e) => SegmentView::Index(e@),
        }
    }
}

impl View for PropertyPath {
    type V = Seq<SegmentView>;

    open spec fn view(&self) -> Seq<SegmentView> {
        base::views(self.segments@)
    }
}

/// What a [`Statement`] says.
pub enum StatementView {
    Field { path: Seq<SegmentView>, expr: Spanned<ExprView> },
    MethodCall { object: Seq<SegmentView>, call: CallView },
    TaggedBlock { tag: Seq<char>, body: Seq<Spanned<StatementView>> },
}

/// The view of a statement, by recursion over nested blocks.
pub open spec fn statement_view(s: Statement) -> StatementView
    decreases s,
{
    match s {
        Statement::Field(f) => StatementView::Field { path: f.path@, expr: f.expr@ },
        Statement::MethodCall(m) => StatementView::MethodCall { object: m.object@, call: m.call@ },
        Statement::TaggedBlock(t) => StatementView::TaggedBlock {
            tag: t.tag@,
            body: Seq::new(
                t.body@.len(),
                |i: int|
                    if 0 <= i < t.body@.len() {
                        Spanned { span: t.body@[i].span, value: statement_view(t.body@[i].value) }
                    } else {
                        arbitrary()
                    },
            ),
        },
    }
}

impl View for Statement {
    type V = StatementView;

    open spec fn view(&self) -> StatementView {
        statement_view(*self)
    }
}

/// The view of a statement in terms of the views of its parts.
pub proof fn lemma_statement_view(s: Statement)
    ensures
        match s {
            Statement::Field(f) => s@ == (StatementView::Field { path: f.path@, expr: f.expr@ }),
            Statement::MethodCall(m) => s@ == (StatementView::MethodCall {
                object: m.object@,
                call: m.call@,
            }),
            Statement::TaggedBlock(t) => s@ == (StatementView::TaggedBlock {
                tag: t.tag@,
                body: base::views(t.body@),
            }),
        },
{
    match s {
        Statement::TaggedBlock(t) => {
            assert(s@->body =~= base::views(t.body@));
        },
        _ => {},
    }
}

/// What a [`Definition`] says.
pub struct DefinitionView {
    pub is_template: bool,
    pub def_type: Seq<char>,
    pub name: Seq<char>,
    pub specializes: Option<Seq<char>>,
    pub specializes_span: Option<Span>,
    pub body: Seq<Spanned<StatementView>>,
}

impl View for Definition {
    type V = DefinitionView;

    open spec fn view(&self) -> DefinitionView {
        DefinitionView {
            is_template: self.is_template,
            def_type: self.def_type@,
            name: self.name@,
            specializes: base::opt_text(self.specializes),
            specializes_span: self.specializes_span,
            body: base::views(self.body@),
        }
    }
}

// ── Views of declarations ────────────────────────────────────────────────────

/// What an [`EnumExpr`] says.
pub enum EnumExprView {
    Int(Spanned<i64>),
    Ident(Spanned<Seq<char>>),
    Shift(Seq<EnumExprView>),
    BitOr(Seq<EnumExprView>),
}

pub open spec fn enum_expr_view(e: EnumExpr) -> EnumExprView
    decreases e,
{
    match e {
        EnumExpr::Int(n) => EnumExprView::Int(n),
        EnumExpr::Ident(s) => EnumExprView::Ident(s@),
        EnumExpr::Shift(v) => EnumExprView::Shift(
            Seq::new(
                v@.len(),
                |i: int|
                    if 0 <= i < v@.len() {
                        enum_expr_view(v@[i])
                    } else {
                        arbitrary()
                    },
            ),
        ),
        EnumExpr::BitOr(v) => EnumExprView::BitOr(
            Seq::new(
                v@.len(),
                |i: int|
                    if 0 <= i < v@.len() {
                        enum_expr_view(v@[i])
                    } else {
                        arbitrary()
                    },
            ),
        ),
    }
}

impl View for EnumExpr {
    type V = EnumExprView;

    open spec fn view(&self) -> EnumExprView {
        enum_expr_view(*self)
    }
}

pub proof fn lemma_enum_expr_view(e: EnumExpr)
    ensures
        match e {
            EnumExpr::Int(n) => e@ == EnumExprView::Int(n),
            EnumExpr::Ident(s) => e@ == EnumExprView::Ident(s@),
            EnumExpr::Shift(v) => e@ == EnumExprView::Shift(base::views(v@)),
            EnumExpr::BitOr(v) => e@ == EnumExprView::BitOr(base::views(v@)),
        },
{
    match e {
        EnumExpr::Shift(v) => {
            assert(e@->Shift_0 =~= base::views(v@));
        },
        EnumExpr::BitOr(v) => {
            assert(e@->BitOr_0 =~= base::views(v@));
        },
        _ => {},
    }
}

impl EnumExprView {
    /// Every shift has a term to shift.
    pub open spec fn sound(self) -> bool
        decreases self,
    {
        match self {
            EnumExprView::Shift(v) => v.len() > 0 && forall|i: int|
                0 <= i < v.len() ==> (#[trigger] v[i]).sound(),
            EnumExprView::BitOr(v) => forall|i: int| 0 <= i < v.len() ==> (#[trigger] v[i]).sound(),
            _ => true,
        }
    }
}

/// What an [`EnumVariant`] says.
pub struct VariantView {
    pub name: Spanned<Seq<char>>,
    pub value: Option<EnumExprView>,
}

impl View for EnumVariant {
    type V = VariantView;

    open spec fn view(&self) -> VariantView {
        VariantView {
            name: self.name@,
            value: match self.value {
                Some(e) => Some(e@),
                None => None,
            },
        }
    }
}

/// What an [`EnumDecl`] says.
pub struct EnumView {
    pub name: Option<Spanned<Seq<char>>>,
    pub variants: Seq<VariantView>,
}

impl View for EnumDecl {
    type V = EnumView;

    open spec fn view(&self) -> EnumView {
        EnumView {
            name: match self.name {
                Some(s) => Some(s@),
                None => None,
            },
            variants: base::views(self.variants@),
        }
    }
}

/// What a [`Define`] says.
pub struct DefineView {
    pub name: Spanned<Seq<char>>,
    pub value: Option<i64>,
}

impl View for Define {
    type V = DefineView;

    open spec fn view(&self) -> DefineView {
        DefineView { name: self.name@, value: self.value }
    }
}

/// What an [`Item`] says.
pub enum ItemView {
    Definition(Spanned<DefinitionView>),
    Enum(EnumView),
    Define(DefineView),
    Namespace { name: Seq<char>, items: Seq<ItemView> },
    Conditional {
        condition: Seq<char>,
        if_branch: Seq<ItemView>,
        else_branch: Option<Seq<ItemView>>,
        inverted: bool,
    },
    PragmaOnce(Span),
}

pub open spec fn item_view(item: Item) -> ItemView
    decreases item,
{
    match item {
        Item::Definition(d) => ItemView::Definition(d@),
        Item::Enum(e) => ItemView::Enum(e@),
        Item::Define(d) => ItemView::Define(d@),
        Item::Namespace(n) => ItemView::Namespace {
            name: n.name@,
            items: Seq::new(
                n.items@.len(),
                |i: int|
                    if 0 <= i < n.items@.len() {
                        item_view(n.items@[i])
                    } else {
                        arbitrary()
                    },
            ),
        },
        Item::Conditional(c) => ItemView::Conditional {
            condition: c.condition@,
            if_branch: Seq::new(
                c.if_branch@.len(),
                |i: int|
                    if 0 <= i < c.if_branch@.len() {
                        item_view(c.if_branch@[i])
                    } else {
                        arbitrary()
                    },
            ),
            else_branch: match c.else_branch {
                Some(b) => Some(
                    Seq::new(
                        b@.len(),
                        |i: int|
                            if 0 <= i < b@.len() {
                                item_view(b@[i])
                            } else {
                                arbitrary()
                            },
                    ),
                ),
                None => None,
            },
            inverted: c.inverted,
        },
        Item::PragmaOnce(s) => ItemView::PragmaOnce(s),
    }
}

impl View for Item {
    type V = ItemView;

    open spec fn view(&self) -> ItemView {
        item_view(*self)
    }
}

pub open spec fn opt_item_views(v: Option<Vec<Item>>) -> Option<Seq<ItemView>> {
    match v {
        Some(v) => Some(base::views(v@)),
        None => None,
    }
}

pub proof fn lemma_item_view(item: Item)
    ensures
        match item {
            Item::Definition(d) => item@ == ItemView::Definition(d@),
            Item::Enum(e) => item@ == ItemView::Enum(e@),
            Item::Define(d) => item@ == ItemView::Define(d@),
            Item::Namespace(n) => item@ == (ItemView::Namespace {
                name: n.name@,
                items: base::views(n.items@),
            }),
            Item::Conditional(c) => item@ == (ItemView::Conditional {
                condition: c.condition@,
                if_branch: base::views(c.if_branch@),
                else_branch: opt_item_views(c.else_branch),
                inverted: c.inverted,
            }),
            Item::PragmaOnce(s) => item@ == ItemView::PragmaOnce(s),
        },
{
    match item {
        Item::Namespace(n) => {
            assert(item@->items =~= base::views(n.items@));
        },
        Item::Conditional(c) => {
            assert(item@->if_branch =~= base::views(c.if_branch@));
            match c.else_branch {
                Some(b) => {
                    assert(item@->else_branch.unwrap() =~= base::views(b@));
                },
                None => {},
            }
        },
        _ => {},
    }
}

impl ItemView {
    /// Every shift in a declared value has a term to shift.
    pub open spec fn sound(self) -> bool
        decreases self,
    {
        match self {
            ItemView::Enum(e) => forall|i: int|
                0 <= i < e.variants.len() ==> ((#[trigger] e.variants[i]).value matches Some(x)
                    ==> x.sound()),
            ItemView::Namespace { items, .. } => forall|i: int|
                0 <= i < items.len() ==> (#[trigger] items[i]).sound(),
            ItemView::Conditional { if_branch, else_branch, .. } => {
                &&& forall|i: int| 0 <= i < if_branch.len() ==> (#[trigger] if_branch[i]).sound()
                &&& match else_branch {
                    Some(b) => forall|i: int| 0 <= i < b.len() ==> (#[trigger] b[i]).sound(),
                    None => true,
                }
            },
            _ => true,
        }
    }
}

/// Whether all of `items` are sound.
pub open spec fn all_sound(items: Seq<ItemView>) -> bool {
    forall|i: int| 0 <= i < items.len() ==> (#[trigger] items[i]).sound()
}

/// What a [`SourceAst`] says.
pub struct SourceView {
    pub items: Seq<ItemView>,
    pub ignored: Seq<Span>,
}

impl View for SourceAst {
    type V = SourceView;

    open spec fn view(&self) -> SourceView {
        SourceView { items: base::views(self.items@), ignored: self.ignored@ }
    }
}

// ── Copies ───────────────────────────────────────────────────────────────────

impl Clone for Expr {
    fn clone(&self) -> (r: Self)
        ensures
            r@ == self@,
        decreases self,
    {
        let r = match self {
            Expr::Number(s) => Expr::Number(s.clone()),
            Expr::Bool(b) => Expr::Bool(*b),
            Expr::String(s) => Expr::String(s.clone()),
            Expr::Symbol(s) => Expr::Symbol(s.clone()),
            Expr::Constructor(c) => Expr::Constructor(
                Call { name: c.name.clone(), arguments: clone_exprs(&c.arguments) },
            ),
            Expr::BitOr(v) => Expr::BitOr(clone_exprs(v)),
            Expr::Add(v) => Expr::Add(clone_exprs(v)),
        };
        proof {
            lemma_expr_view(*self);
            lemma_expr_view(r);
        }
        r
    }
}

/// A copy of a list of expressions.
pub fn clone_exprs(v: &Vec<Spanned<Expr>>) -> (r: Vec<Spanned<Expr>>)
    ensures
        base::views(r@) == base::views(v@),
    decreases v,
{
    let mut out: Vec<Spanned<Expr>> = Vec::new();
    let mut i: usize = 0;
    while i < v.len()
        invariant
            i <= v@.len(),
            base::views(out@) == base::views(v@).take(i as int),
        decreases v@.len() - i,
    {
        let e = &v[i];
        out.push(Spanned { span: e.span, value: e.value.clone() });
        assert(base::views(v@).take(i as int + 1) == base::views(v@).take(i as int).push(
            v@[i as int]@,
        ));
        i = i + 1;
    }
    assert(base::views(v@).take(v@.len() as int) == base::views(v@));
    out
}

impl Clone for Call {
    fn clone(&self) -> (r: Self)
        ensures
            r@ == self@,
    {
        Call { name: self.name.clone(), arguments: clone_exprs(&self.arguments) }
    }
}

impl Clone for PathSegment {
    fn clone(&self) -> (r: Self)
        ensures
            r@ == self@,
    {
        match self {
            PathSegment::Field(s) => PathSegment::Field(s.clone()),
            PathSegment::Index(e) => PathSegment::Index(
                Spanned { span: e.span, value: e.value.clone() },
            ),
        }
    }
}

impl Clone for PropertyPath {
    fn clone(&self) -> (r: Self)
        ensures
            r@ == self@,
    {
        let v = &self.segments;
        let mut out: Vec<PathSegment> = Vec::new();
        let mut i: usize = 0;
        while i < v.len()
            invariant
                i <= v@.len(),
                base::views(out@) == base::views(v@).take(i as int),
            decreases v@.len() - i,
        {
            out.push(v[i].clone());
            assert(base::views(v@).take(i as int + 1) == base::views(v@).take(i as int).push(
                v@[i as int]@,
            ));
            i = i + 1;
        }
        assert(base::views(v@).take(v@.len() as int) == base::views(v@));
        PropertyPath { segments: out }
    }
}

impl Clone for Statement {
    fn clone(&self) -> (r: Self)
        ensures
            r@ == self@,
        decreases self,
    {
        let r = match self {
            Statement::Field(f) => Statement::Field(
                Field {
                    path: f.path.clone(),
                    expr: Spanned { span: f.expr.span, value: f.expr.value.clone() },
                },
            ),
            Statement::MethodCall(m) => Statement::MethodCall(
                MethodCall { object: m.object.clone(), call: m.call.clone() },
            ),
            Statement::TaggedBlock(t) => Statement::TaggedBlock(
                TaggedBlock { tag: t.tag.clone(), body: clone_statements(&t.body) },
            ),
        };
        proof {
            lemma_statement_view(*self);
            lemma_statement_view(r);
        }
        r
    }
}

/// A copy of a statement.
pub fn clone_statement(s: &Spanned<Statement>) -> (r: Spanned<Statement>)
    ensures
        r@ == s@,
{
    Spanned { span: s.span, value: s.value.clone() }
}

/// A copy of a list of statements.
pub fn clone_statements(v: &Vec<Spanned<Statement>>) -> (r: Vec<Spanned<Statement>>)
    ensures
        base::views(r@) == base::views(v@),
    decreases v,
{
    let mut out: Vec<Spanned<Statement>> = Vec::new();
    let mut i: usize = 0;
    while i < v.len()
        invariant
            i <= v@.len(),
            base::views(out@) == base::views(v@).take(i as int),
        decreases v@.len() - i,
    {
        let e = &v[i];
        out.push(Spanned { span: e.span, value: e.value.clone() });
        assert(base::views(v@).take(i as int + 1) == base::views(v@).take(i as int).push(
            v@[i as int]@,
        ));
        i = i + 1;
    }
    assert(base::views(v@).take(v@.len() as int) == base::views(v@));
    out
}

// ── Text forms ───────────────────────────────────────────────────────────────

/// The source form of an expression.
pub open spec fn expr_text(e: ExprView) -> Seq<char>
    decreases e, 0nat,
{
    match e {
        ExprView::Number(s) => s,
        ExprView::Bool(b) => if b {
            "TRUE"@
        } else {
            "FALSE"@
        },
        ExprView::String(s) => "\""@ + s + "\""@,
        ExprView::Symbol(s) => s,
        ExprView::Constructor(c) => c.name + "("@ + joined(c.arguments, 0, ", "@) + ")"@,
        ExprView::BitOr(v) => joined(v, 0, " | "@),
        ExprView::Add(v) => joined(v, 0, " + "@),
    }
}

/// The source forms of the expressions from `k` on, separated by `sep`.
pub open spec fn joined(v: Seq<Spanned<ExprView>>, k: int, sep: Seq<char>) -> Seq<char>
    decreases v, v.len() - k,
{
    if k < 0 || k >= v.len() {
        Seq::empty()
    } else {
        (if k > 0 {
            sep
        } else {
            Seq::empty()
        }) + expr_text(v[k].value) + joined(v, k + 1, sep)
    }
}

/// The source form of the path segments from `k` on.
pub open spec fn path_text(v: Seq<SegmentView>, k: int) -> Seq<char>
    decreases v.len() - k,
{
    if k < 0 || k >= v.len() {
        Seq::empty()
    } else {
        (match v[k] {
            SegmentView::Field(name) => (if k > 0 {
                "."@
            } else {
                Seq::empty()
            }) + name,
            SegmentView::Index(e) => "["@ + expr_text(e.value) + "]"@,
        }) + path_text(v, k + 1)
    }
}

fn write_expr(out: &mut String, e: &Expr)
    ensures
        final(out)@ == old(out)@ + expr_text(e@),
    decreases e, 0nat,
{
    proof {
        lemma_expr_view(*e);
    }
    match e {
        Expr::Number(s) => push_text(out, s.as_str()),
        Expr::Bool(b) => if *b {
            push_text(out, "TRUE")
        } else {
            push_text(out, "FALSE")
        },
        Expr::String(s) => {
            push_text(out, "\"");
            push_text(out, s.as_str());
            push_text(out, "\"");
        },
        Expr::Symbol(s) => push_text(out, s.as_str()),
        Expr::Constructor(c) => {
            push_text(out, c.name.as_str());
            push_text(out, "(");
            write_joined(out, &c.arguments, ", ");
            push_text(out, ")");
        },
        Expr::BitOr(v) => write_joined(out, v, " | "),
        Expr::Add(v) => write_joined(out, v, " + "),
    }
    assert(out@ =~= old(out)@ + expr_text(e@));
}

fn write_joined(out: &mut String, v: &Vec<Spanned<Expr>>, sep: &str)
    ensures
        final(out)@ == old(out)@ + joined(base::views(v@), 0, sep@),
    decreases v, 1nat,
{
    let ghost views = base::views(v@);
    let mut k: usize = 0;
    while k < v.len()
        invariant
            k <= v@.len(),
            views == base::views(v@),
            out@ + joined(views, k as int, sep@) == old(out)@ + joined(views, 0, sep@),
        decreases v@.len() - k,
    {
        let ghost before = out@;
        if k > 0 {
            push_text(out, sep);
        }
        write_expr(out, &v[k].value);
        assert(views[k as int] == v@[k as int]@);
        assert(out@ + joined(views, k as int + 1, sep@) =~= before + joined(
            views,
            k as int,
            sep@,
        ));
        k = k + 1;
    }
    assert(out@ =~= old(out)@ + joined(views, 0, sep@));
}

impl Expr {
    /// The source form of the expression.
    pub fn text(&self) -> (r: String)
        ensures
            r@ == expr_text(self@),
    {
        let mut out = String::new();
        write_expr(&mut out, self);
        assert(out@ =~= expr_text(self@));
        out
    }
}

impl PropertyPath {
    /// The path of the single field `name`.
    pub fn simple(name: &str) -> (r: Self)
        ensures
            r@ == seq![SegmentView::Field(name@)],
    {
        let mut segments: Vec<PathSegment> = Vec::new();
        segments.push(PathSegment::Field(name.to_owned()));
        assert(base::views(segments@) == seq![SegmentView::Field(name@)]);
        PropertyPath { segments }
    }

    /// The source form of the path.
    pub fn text(&self) -> (r: String)
        ensures
            r@ == path_text(self@, 0),
    {
        let mut out = String::new();
        let mut k: usize = 0;
        while k < self.segments.len()
            invariant
                k <= self.segments@.len(),
                out@ + path_text(self@, k as int) == path_text(self@, 0),
            decreases self.segments@.len() - k,
        {
            let ghost before = out@;
            assert(self@[k as int] == self.segments@[k as int]@);
            match &self.segments[k] {
                PathSegment::Field(name) => {
                    if k > 0 {
                        push_text(&mut out, ".");
                    }
                    push_text(&mut out, name.as_str());
                },
                PathSegment::Index(e) => {
                    push_text(&mut out, "[");
                    write_expr(&mut out, &e.value);
                    push_text(&mut out, "]");
                },
            }
            assert(out@ + path_text(self@, k as int + 1) =~= before + path_text(self@, k as int));
            k = k + 1;
        }
        assert(out@ =~= path_text(self@, 0));
        out
    }
}

// ── Numbers ──────────────────────────────────────────────────────────────────

/// Whether a numeric literal is float-shaped: it has a `.` or ends in `f`.
pub open spec fn float_shaped(s: Seq<char>) -> bool {
    s.contains('.') || (s.len() > 0 && s.last() == 'f')
}

/// Whether a numeric literal is float-shaped: it has a `.` or ends in `f`.
pub fn number_is_float(s: &str) -> (r: bool)
    ensures
        r == float_shaped(s@),
{
    let chars = chars_of(s);
    let n: usize = chars.len();
    if n > 0 && chars[n - 1] == 'f' {
        return true;
    }
    let mut i: usize = 0;
    while i < n
        invariant
            i <= n,
            n == chars@.len(),
            chars@ == s@,
            forall|j: int| 0 <= j < i ==> chars@[j] != '.',
            !(n > 0 && chars@[n - 1] == 'f'),
        decreases n - i,
    {
        if chars[i] == '.' {
            assert(s@[i as int] == '.');
            return true;
        }
        i = i + 1;
    }
    false
}

// ── Definitions of a file ────────────────────────────────────────────────────

/// The definitions among the first `k` items, in order.
pub open spec fn definitions_upto(items: Seq<ItemView>, k: int) -> Seq<Spanned<DefinitionView>>
    decreases k,
{
    if k <= 0 || k > items.len() {
        Seq::empty()
    } else {
        match items[k - 1] {
            ItemView::Definition(d) => definitions_upto(items, k - 1).push(d),
            _ => definitions_upto(items, k - 1),
        }
    }
}

/// The definitions of a file, in source order.
pub open spec fn definitions_of(items: Seq<ItemView>) -> Seq<Spanned<DefinitionView>> {
    definitions_upto(items, items.len() as int)
}

/// The place of each name among the first `k` definitions; of two with one name,
/// the later.
pub open spec fn places_upto(defs: Seq<Spanned<DefinitionView>>, k: int) -> Map<Seq<char>, usize>
    decreases k,
{
    if k <= 0 || k > defs.len() {
        Map::empty()
    } else {
        places_upto(defs, k - 1).insert(defs[k - 1].value.name, (k - 1) as usize)
    }
}

impl SourceAst {
    /// The definitions that this file declares, in source order.
    pub fn definitions(&self) -> (r: Vec<&Spanned<Definition>>)
        ensures
            base::views(r@) == definitions_of(self@.items),
    {
        let mut out: Vec<&Spanned<Definition>> = Vec::new();
        let mut k: usize = 0;
        while k < self.items.len()
            invariant
                k <= self.items@.len(),
                base::views(out@) == definitions_upto(self@.items, k as int),
            decreases self.items@.len() - k,
        {
            let item = &self.items[k];
            assert(self@.items[k as int] == item@);
            proof {
                lemma_item_view(*item);
            }
            match item {
                Item::Definition(d) => out.push(d),
                _ => {},
            }
            k = k + 1;
        }
        out
    }

    /// The place of each definition name in [`SourceAst::definitions`]. Of two
    /// definitions with one name, the later counts.
    pub fn definitions_by_name(&self) -> (r: NameMap<usize>)
        ensures
            r@ == places_upto(
                definitions_of(self@.items),
                definitions_of(self@.items).len() as int,
            ),
    {
        let defs = self.definitions();
        let ghost views = definitions_of(self@.items);
        let mut out: NameMap<usize> = NameMap::new();
        let mut k: usize = 0;
        while k < defs.len()
            invariant
                k <= defs@.len(),
                base::views(defs@) == views,
                out@ == places_upto(views, k as int),
            decreases defs@.len() - k,
        {
            assert(views[k as int] == defs@[k as int]@);
            out.insert(defs[k].value.name.as_str(), k);
            k = k + 1;
        }
        assert(views.len() == defs@.len());
        out
    }
}

/// The place recorded for a name is that of its last definition.
pub proof fn later_definition_wins(defs: Seq<Spanned<DefinitionView>>, name: Seq<char>)
    requires
        defs.len() <= usize::MAX,
    ensures
        ({
            let places = places_upto(defs, defs.len() as int);
            &&& places.dom().contains(name) <==> exists|i: int|
                0 <= i < defs.len() && (#[trigger] defs[i]).value.name == name
            &&& places.dom().contains(name) ==> {
                &&& places[name] < defs.len()
                &&& defs[places[name] as int].value.name == name
                &&& forall|j: int|
                    places[name] < j < defs.len() ==> (#[trigger] defs[j]).value.name != name
            }
        }),
{
    lemma_places(defs, defs.len() as int, name);
}

proof fn lemma_places(defs: Seq<Spanned<DefinitionView>>, k: int, name: Seq<char>)
    requires
        0 <= k <= defs.len() <= usize::MAX,
    ensures
        ({
            let places = places_upto(defs, k);
            &&& places.dom().contains(name) <==> exists|i: int|
                0 <= i < k && (#[trigger] defs[i]).value.name == name
            &&& places.dom().contains(name) ==> {
                &&& places[name] < k
                &&& defs[places[name] as int].value.name == name
                &&& forall|j: int| places[name] < j < k ==> (#[trigger] defs[j]).value.name != name
            }
        }),
    decreases k,
{
    if k > 0 {
        lemma_places(defs, k - 1, name);
        assert(defs[k - 1].value.name == defs[k - 1].value.name);
    }
}

} // verus!
