//! Reading a definition's statements by field name.
//!
//! A [`DefReader`] holds statements and which of them have been used. Every
//! accessor picks the unused statements of one form, marks them as used, and
//! hands out what they say; what is left at the end was not understood.

use vstd::prelude::*;

use crate::eval;
use crate::eval::{EvalError, EvalErrorView, Evaluator, Symbols};
use crate::single::Single;
use crate::strings;
use crate::strings::{chars_of, push_nat, push_text, same};
use crate::text::ast;
use crate::text::ast::{
    clone_statement, Expr, ExprView, PathSegment, SegmentView, Statement, StatementView,
};
use crate::text::base;
use crate::text::base::{Span, Spanned};
use crate::text::symbols::SymbolTable;

verus! {

broadcast use base::group_views;

/// Why a definition's statements cannot be read.
#[derive(Debug)]
pub enum DefReaderError {
    MissingField(&'static str, Span),
    UnexpectedStatement(Spanned<Statement>),
    MissingArg(usize, Span),
    Eval(EvalError, Span),
    Semantic(&'static str, Option<Span>),
}

/// What a [`DefReaderError`] says.
pub enum ReaderErrorView {
    MissingField(Seq<char>, Span),
    UnexpectedStatement(Spanned<StatementView>),
    MissingArg(usize, Span),
    Eval(EvalErrorView, Span),
    Semantic(Seq<char>, Option<Span>),
}

impl View for DefReaderError {
    type V = ReaderErrorView;

    open spec fn view(&self) -> ReaderErrorView {
        match *self {
            DefReaderError::MissingField(name, span) => ReaderErrorView::MissingField(name@, span),
            DefReaderError::UnexpectedStatement(s) => ReaderErrorView::UnexpectedStatement(s@),
            DefReaderError::MissingArg(i, span) => ReaderErrorView::MissingArg(i, span),
            DefReaderError::Eval(e, span) => ReaderErrorView::Eval(e@, span),
            DefReaderError::Semantic(m, span) => ReaderErrorView::Semantic(m@, span),
        }
    }
}

impl ReaderErrorView {
    /// The message of the error.
    pub open spec fn message(self) -> Seq<char> {
        match self {
            ReaderErrorView::MissingField(name, _) => "missing required field "@ + name,
            ReaderErrorView::UnexpectedStatement(_) => "unexpected statement"@,
            ReaderErrorView::MissingArg(i, _) => "missing argument at index "@ + strings::nat_text(
                i as nat,
            ),
            ReaderErrorView::Eval(e, _) => e.message(),
            ReaderErrorView::Semantic(m, _) => m,
        }
    }
}

impl DefReaderError {
    /// The message of the error.
    pub fn message(&self) -> (r: String)
        ensures
            r@ == self@.message(),
    {
        let mut out = String::new();
        match self {
            DefReaderError::MissingField(name, _) => {
                push_text(&mut out, "missing required field ");
                push_text(&mut out, name);
            },
            DefReaderError::UnexpectedStatement(_) => push_text(&mut out, "unexpected statement"),
            DefReaderError::MissingArg(i, _) => {
                push_text(&mut out, "missing argument at index ");
                push_nat(&mut out, *i as u64);
            },
            DefReaderError::Eval(e, _) => return e.message(),
            DefReaderError::Semantic(m, _) => push_text(&mut out, m),
        }
        assert(out@ =~= self@.message());
        out
    }
}

/// A result with its error placed at `span`.
pub open spec fn located<T>(r: Result<T, EvalErrorView>, span: Span) -> Result<T, ReaderErrorView> {
    match r {
        Ok(v) => Ok(v),
        Err(e) => Err(ReaderErrorView::Eval(e, span)),
    }
}

/// The view of what a read gave, where the value is its own view.
pub open spec fn read<T>(r: Result<T, DefReaderError>) -> Result<T, ReaderErrorView> {
    match r {
        Ok(v) => Ok(v),
        Err(e) => Err(e@),
    }
}

/// The view of what reading a string gave.
pub open spec fn read_text(r: Result<String, DefReaderError>) -> Result<Seq<char>, ReaderErrorView> {
    match r {
        Ok(s) => Ok(s@),
        Err(e) => Err(e@),
    }
}

/// The view of what reading a string that may be absent gave.
pub open spec fn read_opt_text(r: Result<Option<String>, DefReaderError>) -> Result<
    Option<Seq<char>>,
    ReaderErrorView,
> {
    match r {
        Ok(Some(s)) => Ok(Some(s@)),
        Ok(None) => Ok(None),
        Err(e) => Err(e@),
    }
}

impl<'s> Evaluator<'s> {
    pub fn eval_i32(&self, expr: &Spanned<Expr>) -> (r: Result<i32, DefReaderError>)
        ensures
            read(r) == located(eval::as_i32(self@, expr@.value), expr.span),
    {
        match self.i32(expr) {
            Ok(v) => Ok(v),
            Err(e) => Err(DefReaderError::Eval(e, expr.span)),
        }
    }

    pub fn eval_u32(&self, expr: &Spanned<Expr>) -> (r: Result<u32, DefReaderError>)
        ensures
            read(r) == located(eval::as_u32(self@, expr@.value), expr.span),
    {
        match self.u32(expr) {
            Ok(v) => Ok(v),
            Err(e) => Err(DefReaderError::Eval(e, expr.span)),
        }
    }

    pub fn eval_single(&self, expr: &Spanned<Expr>) -> (r: Result<Single, DefReaderError>)
        ensures
            read(r) == located(eval::as_single(self@, expr@.value), expr.span),
    {
        match self.single(expr) {
            Ok(v) => Ok(v),
            Err(e) => Err(DefReaderError::Eval(e, expr.span)),
        }
    }

    pub fn eval_bool(&self, expr: &Spanned<Expr>) -> (r: Result<bool, DefReaderError>)
        ensures
            read(r) == located(eval::as_bool(expr@.value), expr.span),
    {
        match self.bool(expr) {
            Ok(v) => Ok(v),
            Err(e) => Err(DefReaderError::Eval(e, expr.span)),
        }
    }

    pub fn eval_string(&self, expr: &Spanned<Expr>) -> (r: Result<String, DefReaderError>)
        ensures
            read_text(r) == located(eval::as_string(expr@.value), expr.span),
    {
        match self.string(expr) {
            Ok(s) => Ok(s.to_owned()),
            Err(e) => Err(DefReaderError::Eval(e, expr.span)),
        }
    }

    pub fn eval_usize(&self, expr: &Spanned<Expr>) -> (r: Result<usize, DefReaderError>)
        ensures
            read(r) == located(eval::as_usize(self@, expr@.value), expr.span),
    {
        match self.usize(expr) {
            Ok(v) => Ok(v),
            Err(e) => Err(DefReaderError::Eval(e, expr.span)),
        }
    }
}

// ── Args ─────────────────────────────────────────────────────────────────────

/// Positional reader over an argument list. Reading an argument does not use it
/// up.
#[derive(Clone)]
pub struct Args<'e, 's> {
    args: &'e Vec<Spanned<Expr>>,
    eval: Evaluator<'s>,
}

/// What an [`Args`] stands for.
pub struct ArgsView {
    pub args: Seq<Spanned<ExprView>>,
    pub symbols: Symbols,
}

impl<'e, 's> View for Args<'e, 's> {
    type V = ArgsView;

    closed spec fn view(&self) -> ArgsView {
        ArgsView { args: base::views(self.args@), symbols: self.eval@ }
    }
}

impl ArgsView {
    /// Argument `i`.
    pub open spec fn arg(self, i: int) -> Result<Spanned<ExprView>, ReaderErrorView> {
        if 0 <= i < self.args.len() {
            Ok(self.args[i])
        } else {
            Err(ReaderErrorView::MissingArg(i as usize, Span::nowhere()))
        }
    }

    pub open spec fn i32(self, i: int) -> Result<i32, ReaderErrorView> {
        match self.arg(i) {
            Ok(e) => located(eval::as_i32(self.symbols, e.value), e.span),
            Err(e) => Err(e),
        }
    }

    pub open spec fn u32(self, i: int) -> Result<u32, ReaderErrorView> {
        match self.arg(i) {
            Ok(e) => located(eval::as_u32(self.symbols, e.value), e.span),
            Err(e) => Err(e),
        }
    }

    pub open spec fn single(self, i: int) -> Result<Single, ReaderErrorView> {
        match self.arg(i) {
            Ok(e) => located(eval::as_single(self.symbols, e.value), e.span),
            Err(e) => Err(e),
        }
    }

    pub open spec fn bool(self, i: int) -> Result<bool, ReaderErrorView> {
        match self.arg(i) {
            Ok(e) => located(eval::as_bool(e.value), e.span),
            Err(e) => Err(e),
        }
    }

    pub open spec fn string(self, i: int) -> Result<Seq<char>, ReaderErrorView> {
        match self.arg(i) {
            Ok(e) => located(eval::as_string(e.value), e.span),
            Err(e) => Err(e),
        }
    }

    /// The arguments of argument `i`, which must be a call of `name`.
    pub open spec fn ctor(self, i: int, name: Seq<char>) -> Result<ArgsView, ReaderErrorView> {
        match self.arg(i) {
            Ok(e) => match eval::as_call(e.value, name) {
                Ok(c) => Ok(ArgsView { args: c.arguments, symbols: self.symbols }),
                Err(x) => Err(ReaderErrorView::Eval(x, e.span)),
            },
            Err(e) => Err(e),
        }
    }
}

impl<'e, 's> Args<'e, 's> {
    pub fn new(args: &'e Vec<Spanned<Expr>>, eval: Evaluator<'s>) -> (r: Self)
        ensures
            r@ == (ArgsView { args: base::views(args@), symbols: eval@ }),
    {
        Args { args, eval }
    }

    /// The arguments.
    pub fn list(&self) -> (r: &'e Vec<Spanned<Expr>>)
        ensures
            base::views(r@) == self@.args,
    {
        self.args
    }

    pub fn len(&self) -> (r: usize)
        ensures
            r == self@.args.len(),
    {
        self.args.len()
    }

    pub fn is_empty(&self) -> (r: bool)
        ensures
            r == (self@.args.len() == 0),
    {
        self.args.len() == 0
    }

    fn get(&self, idx: usize) -> (r: Result<&'e Spanned<Expr>, DefReaderError>)
        ensures
            (match r {
                Ok(e) => Ok(e@),
                Err(e) => Err(e@),
            }) == self@.arg(idx as int),
    {
        if idx < self.args.len() {
            Ok(&self.args[idx])
        } else {
            Err(DefReaderError::MissingArg(idx, Span::synthetic()))
        }
    }

    pub fn i32(&self, idx: usize) -> (r: Result<i32, DefReaderError>)
        ensures
            read(r) == self@.i32(idx as int),
    {
        match self.get(idx) {
            Ok(e) => self.eval.eval_i32(e),
            Err(e) => Err(e),
        }
    }

    pub fn u32(&self, idx: usize) -> (r: Result<u32, DefReaderError>)
        ensures
            read(r) == self@.u32(idx as int),
    {
        match self.get(idx) {
            Ok(e) => self.eval.eval_u32(e),
            Err(e) => Err(e),
        }
    }

    pub fn single(&self, idx: usize) -> (r: Result<Single, DefReaderError>)
        ensures
            read(r) == self@.single(idx as int),
    {
        match self.get(idx) {
            Ok(e) => self.eval.eval_single(e),
            Err(e) => Err(e),
        }
    }

    pub fn bool(&self, idx: usize) -> (r: Result<bool, DefReaderError>)
        ensures
            read(r) == self@.bool(idx as int),
    {
        match self.get(idx) {
            Ok(e) => self.eval.eval_bool(e),
            Err(e) => Err(e),
        }
    }

    pub fn string(&self, idx: usize) -> (r: Result<String, DefReaderError>)
        ensures
            read_text(r) == self@.string(idx as int),
    {
        match self.get(idx) {
            Ok(e) => self.eval.eval_string(e),
            Err(e) => Err(e),
        }
    }

    /// Argument `idx`, if there is one.
    pub fn opt(&self, idx: usize) -> (r: Option<&'e Spanned<Expr>>)
        ensures
            match r {
                Some(e) => idx < self@.args.len() && e@ == self@.args[idx as int],
                None => idx >= self@.args.len(),
            },
    {
        if idx < self.args.len() {
            Some(&self.args[idx])
        } else {
            None
        }
    }

    /// The arguments of argument `idx`, which must be a call of `name`.
    pub fn ctor(&self, idx: usize, name: &str) -> (r: Result<Args<'e, 's>, DefReaderError>)
        ensures
            (match r {
                Ok(a) => Ok(a@),
                Err(e) => Err(e@),
            }) == self@.ctor(idx as int, name@),
    {
        match self.get(idx) {
            Ok(e) => match self.eval.call(e, name) {
                Ok(c) => Ok(Args::new(&c.arguments, self.eval)),
                Err(x) => Err(DefReaderError::Eval(x, e.span)),
            },
            Err(e) => Err(e),
        }
    }
}

// ── Statement forms ──────────────────────────────────────────────────────────

/// A form of statement, relative to the depth of the reader.
pub enum Pick<'n> {
    /// `name value;`
    Leaf(&'n str),
    /// `name value;`, with the name compared without regard to case and `_`.
    Member(&'n str),
    /// A value with no name left: `value;`
    Any,
    /// `name.member… value;`
    Group(&'n str),
    /// `object.method(…);`
    Calls(&'n str, &'n str),
    /// `name[index]… value;` and `name[index]….method(…);`
    Indexed(&'n str),
    /// `name[key]… value;`
    Keyed(&'n str),
}

/// What a [`Pick`] says.
pub enum PickView {
    Leaf(Seq<char>),
    Member(Seq<char>),
    Any,
    Group(Seq<char>),
    Calls(Seq<char>, Seq<char>),
    Indexed(Seq<char>),
    Keyed(Seq<char>),
}

impl<'n> View for Pick<'n> {
    type V = PickView;

    open spec fn view(&self) -> PickView {
        match *self {
            Pick::Leaf(n) => PickView::Leaf(n@),
            Pick::Member(n) => PickView::Member(n@),
            Pick::Any => PickView::Any,
            Pick::Group(n) => PickView::Group(n@),
            Pick::Calls(o, m) => PickView::Calls(o@, m@),
            Pick::Indexed(n) => PickView::Indexed(n@),
            Pick::Keyed(n) => PickView::Keyed(n@),
        }
    }
}

/// The lower-case form of an ASCII letter; other characters are unchanged.
pub open spec fn lower(c: char) -> char {
    if 'A' <= c && c <= 'Z' {
        (c as u8 + 32) as char
    } else {
        c
    }
}

/// A member name without regard to case and `_`.
pub open spec fn normalized(s: Seq<char>) -> Seq<char>
    decreases s.len(),
{
    if s.len() == 0 {
        Seq::empty()
    } else if s.last() == '_' {
        normalized(s.drop_last())
    } else {
        normalized(s.drop_last()).push(lower(s.last()))
    }
}

/// Whether segment `i` of a path is the field `name`.
pub open spec fn segment_is(path: Seq<SegmentView>, i: int, name: Seq<char>) -> bool {
    0 <= i < path.len() && path[i] == SegmentView::Field(name)
}

/// The path that a statement is about.
pub open spec fn subject(s: StatementView) -> Option<Seq<SegmentView>> {
    match s {
        StatementView::Field { path, .. } => Some(path),
        StatementView::MethodCall { object, .. } => Some(object),
        StatementView::TaggedBlock { .. } => None,
    }
}

/// Whether a path goes on with an index behind `name`.
pub open spec fn indexes(path: Seq<SegmentView>, depth: int, name: Seq<char>) -> bool {
    segment_is(path, depth, name) && depth + 1 < path.len() && path[depth + 1] is Index
}

impl PickView {
    /// Whether the statement has this form at the given depth.
    pub open spec fn picks(self, s: StatementView, depth: int) -> bool {
        match self {
            PickView::Leaf(name) => match s {
                StatementView::Field { path, .. } => path.len() == depth + 1 && segment_is(
                    path,
                    depth,
                    name,
                ),
                _ => false,
            },
            PickView::Member(name) => match s {
                StatementView::Field { path, .. } => path.len() == depth + 1 && match path[depth] {
                    SegmentView::Field(n) => normalized(n) == normalized(name),
                    _ => false,
                },
                _ => false,
            },
            PickView::Any => match s {
                StatementView::Field { path, .. } => path.len() == depth,
                _ => false,
            },
            PickView::Group(name) => match s {
                StatementView::Field { path, .. } => segment_is(path, depth, name) && depth + 1
                    < path.len() && path[depth + 1] is Field,
                _ => false,
            },
            PickView::Calls(name, method) => match s {
                StatementView::MethodCall { object, call } => object.len() == depth + 1
                    && segment_is(object, depth, name) && call.name == method,
                _ => false,
            },
            PickView::Indexed(name) => match subject(s) {
                Some(path) => indexes(path, depth, name),
                None => false,
            },
            PickView::Keyed(name) => match s {
                StatementView::Field { path, .. } => indexes(path, depth, name),
                _ => false,
            },
        }
    }
}

/// A statement and whether it has been used.
pub struct EntryView {
    pub stmt: Spanned<StatementView>,
    pub consumed: bool,
}

/// What a [`DefReader`] stands for.
pub struct ReaderView {
    pub entries: Seq<EntryView>,
    pub depth: int,
    pub symbols: Symbols,
}

/// The entries of unused statements.
pub open spec fn fresh(stmts: Seq<Spanned<StatementView>>) -> Seq<EntryView> {
    Seq::new(stmts.len(), |i: int| EntryView { stmt: stmts[i], consumed: false })
}

/// The unused statements of the given form among the first `k` entries, in order.
pub open spec fn picked(entries: Seq<EntryView>, pick: PickView, depth: int, k: int) -> Seq<
    Spanned<StatementView>,
>
    decreases k,
{
    if k <= 0 || k > entries.len() {
        Seq::empty()
    } else if !entries[k - 1].consumed && pick.picks(entries[k - 1].stmt.value, depth) {
        picked(entries, pick, depth, k - 1).push(entries[k - 1].stmt)
    } else {
        picked(entries, pick, depth, k - 1)
    }
}

/// The unused statements among the first `k` entries, in order.
pub open spec fn unused(entries: Seq<EntryView>, k: int) -> Seq<Spanned<StatementView>>
    decreases k,
{
    if k <= 0 || k > entries.len() {
        Seq::empty()
    } else if !entries[k - 1].consumed {
        unused(entries, k - 1).push(entries[k - 1].stmt)
    } else {
        unused(entries, k - 1)
    }
}

/// The value of the last of some field statements: the last one wins.
pub open spec fn last_value(stmts: Seq<Spanned<StatementView>>) -> Option<Spanned<ExprView>> {
    if stmts.len() == 0 {
        None
    } else {
        match stmts.last().value {
            StatementView::Field { expr, .. } => Some(expr),
            _ => None,
        }
    }
}

impl ReaderView {
    /// The unused statements of the given form.
    pub open spec fn all(self, pick: PickView) -> Seq<Spanned<StatementView>> {
        picked(self.entries, pick, self.depth, self.entries.len() as int)
    }

    /// The reader with the statements of the given form used up.
    pub open spec fn without(self, pick: PickView) -> ReaderView {
        ReaderView {
            entries: Seq::new(
                self.entries.len(),
                |i: int|
                    EntryView {
                        stmt: self.entries[i].stmt,
                        consumed: self.entries[i].consumed || pick.picks(
                            self.entries[i].stmt.value,
                            self.depth,
                        ),
                    },
            ),
            ..self
        }
    }

    /// The value that the statements of the given form give.
    pub open spec fn value(self, pick: PickView) -> Option<Spanned<ExprView>> {
        last_value(self.all(pick))
    }

    /// A reader over `stmts`, none of them used, at a depth that is `by` greater.
    pub open spec fn below(self, stmts: Seq<Spanned<StatementView>>, by: int) -> ReaderView {
        ReaderView { entries: fresh(stmts), depth: self.depth + by, symbols: self.symbols }
    }

    /// The statements that have not been used.
    pub open spec fn left_over(self) -> Seq<Spanned<StatementView>> {
        unused(self.entries, self.entries.len() as int)
    }

    /// Whether everything has been used; if not, the first statement that has not.
    pub open spec fn finished(self) -> Result<(), ReaderErrorView> {
        if self.left_over().len() == 0 {
            Ok(())
        } else {
            Err(ReaderErrorView::UnexpectedStatement(self.left_over()[0]))
        }
    }

    /// A reader over the statements about the members of `name`, if there are any.
    pub open spec fn members(self, name: Seq<char>) -> Option<ReaderView> {
        let stmts = self.all(PickView::Group(name));
        if stmts.len() == 0 {
            None
        } else {
            Some(self.below(stmts, 1))
        }
    }

    /// The nameless value.
    pub open spec fn any(self) -> Result<Spanned<ExprView>, ReaderErrorView> {
        match self.value(PickView::Any) {
            Some(e) => Ok(e),
            None => Err(ReaderErrorView::MissingField("(any)"@, Span::nowhere())),
        }
    }
}

/// A reading that may be absent.
pub open spec fn optional<T>(r: Result<T, ReaderErrorView>) -> Result<Option<T>, ReaderErrorView> {
    match r {
        Ok(v) => Ok(Some(v)),
        Err(e) => Err(e),
    }
}

impl ReaderView {
    /// What `name` is set to, read as an integer.
    pub open spec fn opt_i32(self, name: Seq<char>) -> Result<Option<i32>, ReaderErrorView> {
        match self.value(PickView::Leaf(name)) {
            Some(e) => optional(located(eval::as_i32(self.symbols, e.value), e.span)),
            None => Ok(None),
        }
    }

    /// What `name` is set to, read as an unsigned integer.
    pub open spec fn opt_u32(self, name: Seq<char>) -> Result<Option<u32>, ReaderErrorView> {
        match self.value(PickView::Leaf(name)) {
            Some(e) => optional(located(eval::as_u32(self.symbols, e.value), e.span)),
            None => Ok(None),
        }
    }

    /// What `name` is set to, read as a floating-point number.
    pub open spec fn opt_single(self, name: Seq<char>) -> Result<Option<Single>, ReaderErrorView> {
        match self.value(PickView::Leaf(name)) {
            Some(e) => optional(located(eval::as_single(self.symbols, e.value), e.span)),
            None => Ok(None),
        }
    }

    /// What `name` is set to, read as a truth value.
    pub open spec fn opt_bool(self, name: Seq<char>) -> Result<Option<bool>, ReaderErrorView> {
        match self.value(PickView::Leaf(name)) {
            Some(e) => optional(located(eval::as_bool(e.value), e.span)),
            None => Ok(None),
        }
    }

    /// What `name` is set to, read as a string.
    pub open spec fn opt_string(self, name: Seq<char>) -> Result<
        Option<Seq<char>>,
        ReaderErrorView,
    > {
        match self.value(PickView::Leaf(name)) {
            Some(e) => optional(located(eval::as_string(e.value), e.span)),
            None => Ok(None),
        }
    }

    pub open spec fn any_i32(self) -> Result<i32, ReaderErrorView> {
        match self.any() {
            Ok(e) => located(eval::as_i32(self.symbols, e.value), e.span),
            Err(e) => Err(e),
        }
    }

    pub open spec fn any_u32(self) -> Result<u32, ReaderErrorView> {
        match self.any() {
            Ok(e) => located(eval::as_u32(self.symbols, e.value), e.span),
            Err(e) => Err(e),
        }
    }

    pub open spec fn any_single(self) -> Result<Single, ReaderErrorView> {
        match self.any() {
            Ok(e) => located(eval::as_single(self.symbols, e.value), e.span),
            Err(e) => Err(e),
        }
    }

    pub open spec fn any_string(self) -> Result<Seq<char>, ReaderErrorView> {
        match self.any() {
            Ok(e) => located(eval::as_string(e.value), e.span),
            Err(e) => Err(e),
        }
    }

    pub open spec fn any_bool(self) -> Result<bool, ReaderErrorView> {
        match self.any() {
            Ok(e) => located(eval::as_bool(e.value), e.span),
            Err(e) => Err(e),
        }
    }
}

// ── Grouping ─────────────────────────────────────────────────────────────────

/// Statements that share an index.
pub struct IndexGroup {
    pub index: usize,
    pub stmts: Seq<Spanned<StatementView>>,
}

/// `groups`, in ascending order of index, with `stmt` added to the group of `index`;
/// the groups before `k` have smaller indices.
pub open spec fn add_indexed(
    groups: Seq<IndexGroup>,
    k: int,
    index: usize,
    stmt: Spanned<StatementView>,
) -> Seq<IndexGroup>
    decreases groups.len() - k,
{
    if k < 0 || k >= groups.len() || index < groups[k].index {
        groups.insert(k, IndexGroup { index, stmts: seq![stmt] })
    } else if index == groups[k].index {
        groups.update(k, IndexGroup { index, stmts: groups[k].stmts.push(stmt) })
    } else {
        add_indexed(groups, k + 1, index, stmt)
    }
}

/// The index expression of a statement of an indexed form.
pub open spec fn index_of(s: StatementView, depth: int) -> Spanned<ExprView> {
    match subject(s) {
        Some(path) => match path[depth + 1] {
            SegmentView::Index(e) => e,
            _ => arbitrary(),
        },
        None => arbitrary(),
    }
}

/// The first `k` statements grouped by index, or the error of the first index
/// that is not one.
pub open spec fn grouped(
    syms: Symbols,
    stmts: Seq<Spanned<StatementView>>,
    depth: int,
    k: int,
) -> Result<Seq<IndexGroup>, ReaderErrorView>
    decreases k,
{
    if k <= 0 || k > stmts.len() {
        Ok(Seq::empty())
    } else {
        match grouped(syms, stmts, depth, k - 1) {
            Err(e) => Err(e),
            Ok(groups) => {
                let e = index_of(stmts[k - 1].value, depth);
                match located(eval::as_usize(syms, e.value), e.span) {
                    Err(e) => Err(e),
                    Ok(index) => Ok(add_indexed(groups, 0, index, stmts[k - 1])),
                }
            },
        }
    }
}

/// Statements that share a key.
pub struct KeyGroup {
    pub key: Spanned<ExprView>,
    pub stmts: Seq<Spanned<StatementView>>,
}

/// `groups` with `stmt` added to the first group whose key has the same source
/// form, or in a group of its own behind them; the groups before `k` have other
/// keys.
pub open spec fn add_keyed(
    groups: Seq<KeyGroup>,
    k: int,
    key: Spanned<ExprView>,
    stmt: Spanned<StatementView>,
) -> Seq<KeyGroup>
    decreases groups.len() - k,
{
    if k < 0 || k >= groups.len() {
        groups.push(KeyGroup { key, stmts: seq![stmt] })
    } else if ast::expr_text(groups[k].key.value) == ast::expr_text(key.value) {
        groups.update(k, KeyGroup { key: groups[k].key, stmts: groups[k].stmts.push(stmt) })
    } else {
        add_keyed(groups, k + 1, key, stmt)
    }
}

/// The first `k` statements grouped by key, in the order in which keys first come.
pub open spec fn keyed_groups(stmts: Seq<Spanned<StatementView>>, depth: int, k: int) -> Seq<
    KeyGroup,
>
    decreases k,
{
    if k <= 0 || k > stmts.len() {
        Seq::empty()
    } else {
        add_keyed(
            keyed_groups(stmts, depth, k - 1),
            0,
            index_of(stmts[k - 1].value, depth),
            stmts[k - 1],
        )
    }
}

impl ReaderView {
    /// The statements under `name[index]`, by index.
    pub open spec fn by_index(self, name: Seq<char>) -> Result<Seq<IndexGroup>, ReaderErrorView> {
        let stmts = self.all(PickView::Indexed(name));
        grouped(self.symbols, stmts, self.depth, stmts.len() as int)
    }

    /// A reader for each group of statements that share an index.
    pub open spec fn indexed_readers(self, groups: Seq<IndexGroup>) -> Seq<(usize, ReaderView)> {
        Seq::new(groups.len(), |i: int| (groups[i].index, self.below(groups[i].stmts, 2)))
    }

    /// A reader for each group of statements that share a key.
    pub open spec fn keyed_readers(self, groups: Seq<KeyGroup>) -> Seq<
        (Spanned<ExprView>, ReaderView),
    > {
        Seq::new(groups.len(), |i: int| (groups[i].key, self.below(groups[i].stmts, 2)))
    }

    /// The argument lists of the calls `object.method(…)`.
    pub open spec fn call_args(self, object: Seq<char>, method: Seq<char>) -> Seq<ArgsView> {
        let stmts = self.all(PickView::Calls(object, method));
        Seq::new(
            stmts.len(),
            |i: int|
                match stmts[i].value {
                    StatementView::MethodCall { call, .. } => ArgsView {
                        args: call.arguments,
                        symbols: self.symbols,
                    },
                    _ => arbitrary(),
                },
        )
    }

    /// The statements under `name[key]`, by key.
    pub open spec fn by_key(self, name: Seq<char>) -> Seq<KeyGroup> {
        let stmts = self.all(PickView::Keyed(name));
        keyed_groups(stmts, self.depth, stmts.len() as int)
    }
}

// ── Tests of statements ──────────────────────────────────────────────────────

/// A member name without regard to case and `_`.
pub fn normalize_member_name(name: &str) -> (r: String)
    ensures
        r@ == normalized(name@),
{
    let chars = chars_of(name);
    let mut out = String::new();
    let mut i: usize = 0;
    assert(chars@.take(0) == Seq::<char>::empty());
    while i < chars.len()
        invariant
            i <= chars@.len(),
            chars@ == name@,
            out@ == normalized(chars@.take(i as int)),
        decreases chars@.len() - i,
    {
        let c = chars[i];
        assert(chars@.take(i as int + 1).drop_last() == chars@.take(i as int));
        if c != '_' {
            out.push(
                if 'A' <= c && c <= 'Z' {
                    (c as u8 + 32) as char
                } else {
                    c
                },
            );
        }
        i = i + 1;
    }
    assert(chars@.take(chars@.len() as int) == name@);
    out
}

fn test_segment(path: &Vec<PathSegment>, i: usize, name: &str) -> (r: bool)
    ensures
        r == segment_is(base::views(path@), i as int, name@),
{
    if i < path.len() {
        assert(base::views(path@)[i as int] == path@[i as int]@);
        match &path[i] {
            PathSegment::Field(n) => same(n.as_str(), name),
            PathSegment::Index(_) => false,
        }
    } else {
        false
    }
}

/// Whether segment `i` is an index.
fn test_index(path: &Vec<PathSegment>, i: usize) -> (r: bool)
    requires
        i < path@.len(),
    ensures
        r == (base::views(path@)[i as int] is Index),
{
    assert(base::views(path@)[i as int] == path@[i as int]@);
    match &path[i] {
        PathSegment::Field(_) => false,
        PathSegment::Index(_) => true,
    }
}

fn test_indexes(path: &Vec<PathSegment>, depth: usize, name: &str) -> (r: bool)
    ensures
        r == indexes(base::views(path@), depth as int, name@),
{
    let n: usize = path.len();
    test_segment(path, depth, name) && depth + 1 < n && test_index(path, depth + 1)
}

impl<'n> Pick<'n> {
    fn test(&self, s: &Statement, depth: usize) -> (r: bool)
        ensures
            r == self@.picks(s@, depth as int),
    {
        proof {
            ast::lemma_statement_view(*s);
        }
        match self {
            Pick::Leaf(name) => match s {
                Statement::Field(f) => {
                    let n: usize = f.path.segments.len();
                    n > depth && n - 1 == depth && test_segment(&f.path.segments, depth, name)
                },
                _ => false,
            },
            Pick::Member(name) => match s {
                Statement::Field(f) => {
                    let n: usize = f.path.segments.len();
                    if n > depth && n - 1 == depth {
                        assert(f.path@[depth as int] == f.path.segments@[depth as int]@);
                        match &f.path.segments[depth] {
                            PathSegment::Field(m) => same(
                                normalize_member_name(m.as_str()).as_str(),
                                normalize_member_name(name).as_str(),
                            ),
                            PathSegment::Index(_) => false,
                        }
                    } else {
                        false
                    }
                },
                _ => false,
            },
            Pick::Any => match s {
                Statement::Field(f) => f.path.segments.len() == depth,
                _ => false,
            },
            Pick::Group(name) => match s {
                Statement::Field(f) => {
                    let n: usize = f.path.segments.len();
                    test_segment(&f.path.segments, depth, name) && depth + 1 < n && !test_index(
                        &f.path.segments,
                        depth + 1,
                    )
                },
                _ => false,
            },
            Pick::Calls(name, method) => match s {
                Statement::MethodCall(m) => {
                    let n: usize = m.object.segments.len();
                    n > depth && n - 1 == depth && test_segment(&m.object.segments, depth, name)
                        && same(m.call.name.as_str(), method)
                },
                _ => false,
            },
            Pick::Indexed(name) => match s {
                Statement::Field(f) => test_indexes(&f.path.segments, depth, name),
                Statement::MethodCall(m) => test_indexes(&m.object.segments, depth, name),
                Statement::TaggedBlock(_) => false,
            },
            Pick::Keyed(name) => match s {
                Statement::Field(f) => test_indexes(&f.path.segments, depth, name),
                _ => false,
            },
        }
    }
}

/// The index expression of a statement of an indexed form.
fn index_expr(s: &Statement, depth: usize) -> (r: Option<&Spanned<Expr>>)
    ensures
        match r {
            Some(e) => e@ == index_of(s@, depth as int),
            None => forall|name: Seq<char>| !PickView::Indexed(name).picks(s@, depth as int),
        },
{
    proof {
        ast::lemma_statement_view(*s);
    }
    let path = match s {
        Statement::Field(f) => &f.path.segments,
        Statement::MethodCall(m) => &m.object.segments,
        Statement::TaggedBlock(_) => return None,
    };
    let n: usize = path.len();
    if depth < n && depth + 1 < n {
        assert(base::views(path@)[depth + 1] == path@[depth + 1]@);
        match &path[depth + 1] {
            PathSegment::Index(e) => Some(e),
            PathSegment::Field(_) => None,
        }
    } else {
        None
    }
}

// ── The reader ───────────────────────────────────────────────────────────────

struct Entry<'a> {
    stmt: &'a Spanned<Statement>,
    consumed: bool,
}

impl<'a> View for Entry<'a> {
    type V = EntryView;

    closed spec fn view(&self) -> EntryView {
        EntryView { stmt: self.stmt@, consumed: self.consumed }
    }
}

/// Reads a definition's statements by field name.
pub struct DefReader<'a, 's> {
    entries: Vec<Entry<'a>>,
    depth: usize,
    eval: Evaluator<'s>,
}

impl<'a, 's> View for DefReader<'a, 's> {
    type V = ReaderView;

    closed spec fn view(&self) -> ReaderView {
        ReaderView {
            entries: base::views(self.entries@),
            depth: self.depth as int,
            symbols: self.eval@,
        }
    }
}

/// A group of statements that share an index.
struct Indexed<'a> {
    index: usize,
    stmts: Vec<&'a Spanned<Statement>>,
}

impl<'a> View for Indexed<'a> {
    type V = IndexGroup;

    closed spec fn view(&self) -> IndexGroup {
        IndexGroup { index: self.index, stmts: base::views(self.stmts@) }
    }
}

/// A group of statements that share a key.
struct Keyed<'a> {
    key: &'a Spanned<Expr>,
    stmts: Vec<&'a Spanned<Statement>>,
}

impl<'a> View for Keyed<'a> {
    type V = KeyGroup;

    closed spec fn view(&self) -> KeyGroup {
        KeyGroup { key: self.key@, stmts: base::views(self.stmts@) }
    }
}

fn fresh_entries<'a>(stmts: &Vec<&'a Spanned<Statement>>) -> (r: Vec<Entry<'a>>)
    ensures
        base::views(r@) == fresh(base::views(stmts@)),
{
    let mut out: Vec<Entry<'a>> = Vec::new();
    let mut i: usize = 0;
    while i < stmts.len()
        invariant
            i <= stmts@.len(),
            base::views(out@) == fresh(base::views(stmts@)).take(i as int),
        decreases stmts@.len() - i,
    {
        out.push(Entry { stmt: stmts[i], consumed: false });
        assert(fresh(base::views(stmts@)).take(i as int + 1) =~= fresh(base::views(stmts@)).take(
            i as int,
        ).push(fresh(base::views(stmts@))[i as int]));
        i = i + 1;
    }
    assert(fresh(base::views(stmts@)).take(stmts@.len() as int) =~= fresh(base::views(stmts@)));
    out
}

/// Adds `stmt` to the group of `index`, keeping the groups in ascending order.
fn add_to_indexed<'a>(
    groups: &mut Vec<Indexed<'a>>,
    index: usize,
    stmt: &'a Spanned<Statement>,
)
    ensures
        base::views(final(groups)@) == add_indexed(base::views(old(groups)@), 0, index, stmt@),
{
    let mut k: usize = 0;
    let ghost before = base::views(groups@);
    while k < groups.len()
        invariant
            k <= groups@.len(),
            before == base::views(old(groups)@),
            base::views(groups@) == before,
            add_indexed(before, 0, index, stmt@) == add_indexed(before, k as int, index, stmt@),
        decreases groups@.len() - k,
    {
        assert(base::views(groups@)[k as int] == groups@[k as int]@);
        if index < groups[k].index {
            groups.insert(k, Indexed { index, stmts: vec![stmt] });
            proof {
                let g = groups@[k as int];
                assert(g.stmts@ =~= seq![stmt]);
                assert(base::views(g.stmts@) =~= seq![stmt@]);
                assert(base::views(groups@) =~= before.insert(k as int, g@));
            }
            return;
        }
        if index == groups[k].index {
            let mut stmts: Vec<&'a Spanned<Statement>> = Vec::new();
            std::mem::swap(&mut stmts, &mut groups[k].stmts);
            stmts.push(stmt);
            groups[k].stmts = stmts;
            proof {
                let g = groups@[k as int];
                assert(base::views(groups@) =~= before.update(k as int, g@));
            }
            return;
        }
        k = k + 1;
    }
    groups.push(Indexed { index, stmts: vec![stmt] });
    proof {
        let g = groups@[k as int];
        assert(g.stmts@ =~= seq![stmt]);
        assert(base::views(g.stmts@) =~= seq![stmt@]);
        assert(base::views(groups@) =~= before.insert(k as int, g@));
    }
}

/// Adds `stmt` to the group of the key with the same source form.
fn add_to_keyed<'a>(
    groups: &mut Vec<Keyed<'a>>,
    key: &'a Spanned<Expr>,
    stmt: &'a Spanned<Statement>,
)
    ensures
        base::views(final(groups)@) == add_keyed(base::views(old(groups)@), 0, key@, stmt@),
{
    let text = key.value.text();
    let mut k: usize = 0;
    let ghost before = base::views(groups@);
    while k < groups.len()
        invariant
            k <= groups@.len(),
            text@ == ast::expr_text(key@.value),
            before == base::views(old(groups)@),
            base::views(groups@) == before,
            add_keyed(before, 0, key@, stmt@) == add_keyed(before, k as int, key@, stmt@),
        decreases groups@.len() - k,
    {
        assert(base::views(groups@)[k as int] == groups@[k as int]@);
        let other = groups[k].key.value.text();
        if same(other.as_str(), text.as_str()) {
            let mut stmts: Vec<&'a Spanned<Statement>> = Vec::new();
            std::mem::swap(&mut stmts, &mut groups[k].stmts);
            stmts.push(stmt);
            groups[k].stmts = stmts;
            proof {
                let g = groups@[k as int];
                assert(base::views(groups@) =~= before.update(k as int, g@));
            }
            return;
        }
        k = k + 1;
    }
    groups.push(Keyed { key, stmts: vec![stmt] });
    proof {
        let g = groups@[k as int];
        assert(g.stmts@ =~= seq![stmt]);
        assert(base::views(g.stmts@) =~= seq![stmt@]);
    }
}

/// The value of the last of some field statements.
fn value_of_last<'a>(stmts: &Vec<&'a Spanned<Statement>>) -> (r: Option<&'a Spanned<Expr>>)
    ensures
        (match r {
            Some(e) => Some(e@),
            None => None,
        }) == last_value(base::views(stmts@)),
{
    let n: usize = stmts.len();
    if n == 0 {
        return None;
    }
    let last = stmts[n - 1];
    proof {
        assert(base::views(stmts@).last() == stmts@[n - 1]@);
        ast::lemma_statement_view(last.value);
    }
    match &last.value {
        Statement::Field(f) => Some(&f.expr),
        _ => None,
    }
}

/// What an optional reading gives.
pub open spec fn found(r: Option<&Spanned<Expr>>) -> Option<Spanned<ExprView>> {
    match r {
        Some(e) => Some(e@),
        None => None,
    }
}

impl<'a, 's> DefReader<'a, 's> {
    /// A reader over `body`, with nothing used yet.
    pub fn new(body: &'a Vec<Spanned<Statement>>, symbols: &'s SymbolTable) -> (r: Self)
        ensures
            r@ == (ReaderView {
                entries: fresh(base::views(body@)),
                depth: 0,
                symbols: symbols@,
            }),
    {
        let mut entries: Vec<Entry<'a>> = Vec::new();
        let mut i: usize = 0;
        let ghost whole = fresh(base::views(body@));
        while i < body.len()
            invariant
                i <= body@.len(),
                whole == fresh(base::views(body@)),
                base::views(entries@) == whole.take(i as int),
            decreases body@.len() - i,
        {
            entries.push(Entry { stmt: &body[i], consumed: false });
            assert(whole.take(i as int + 1) =~= whole.take(i as int).push(whole[i as int]));
            i = i + 1;
        }
        assert(whole.take(body@.len() as int) =~= whole);
        DefReader { entries, depth: 0, eval: Evaluator::new(symbols) }
    }

    /// A reader over some statements, with nothing used yet.
    pub fn of(stmts: &Vec<&'a Spanned<Statement>>, symbols: &'s SymbolTable) -> (r: Self)
        ensures
            r@ == (ReaderView {
                entries: fresh(base::views(stmts@)),
                depth: 0,
                symbols: symbols@,
            }),
    {
        DefReader { entries: fresh_entries(stmts), depth: 0, eval: Evaluator::new(symbols) }
    }

    pub fn eval(&self) -> (r: Evaluator<'s>)
        ensures
            r@ == self@.symbols,
    {
        self.eval
    }

    /// The unused statements of the given form, in order.
    fn select(&self, pick: &Pick) -> (r: Vec<&'a Spanned<Statement>>)
        ensures
            base::views(r@) == self@.all(pick@),
    {
        let mut out: Vec<&'a Spanned<Statement>> = Vec::new();
        let mut i: usize = 0;
        while i < self.entries.len()
            invariant
                i <= self.entries@.len(),
                base::views(out@) == picked(self@.entries, pick@, self@.depth, i as int),
            decreases self.entries@.len() - i,
        {
            assert(self@.entries[i as int] == self.entries@[i as int]@);
            if !self.entries[i].consumed && pick.test(&self.entries[i].stmt.value, self.depth) {
                out.push(self.entries[i].stmt);
            }
            i = i + 1;
        }
        out
    }

    /// Marks the statements of the given form as used.
    fn mark(&mut self, pick: &Pick)
        ensures
            final(self)@ == old(self)@.without(pick@),
    {
        let ghost whole = self@.without(pick@).entries;
        let ghost depth = self.depth;
        let ghost symbols = self.eval@;
        let n: usize = self.entries.len();
        let mut i: usize = 0;
        while i < n
            invariant
                i <= n,
                n == self.entries@.len(),
                whole == old(self)@.without(pick@).entries,
                n == old(self)@.entries.len(),
                depth == self.depth,
                depth == old(self)@.depth,
                symbols == self.eval@,
                symbols == old(self)@.symbols,
                forall|j: int| 0 <= j < i ==> #[trigger] self.entries@[j]@ == whole[j],
                forall|j: int|
                    i <= j < n ==> #[trigger] self.entries@[j]@ == old(self)@.entries[j],
            decreases n - i,
        {
            let hit = pick.test(&self.entries[i].stmt.value, self.depth);
            let entry = Entry {
                stmt: self.entries[i].stmt,
                consumed: self.entries[i].consumed || hit,
            };
            assert(self.entries@[i as int]@ == old(self)@.entries[i as int]);
            assert(entry@ == whole[i as int]);
            self.entries.set(i, entry);
            i = i + 1;
        }
        assert(self@.entries =~= whole);
    }

    /// The unused statements of the given form, which are used up.
    fn take(&mut self, pick: &Pick) -> (r: Vec<&'a Spanned<Statement>>)
        ensures
            base::views(r@) == old(self)@.all(pick@),
            final(self)@ == old(self)@.without(pick@),
    {
        let out = self.select(pick);
        self.mark(pick);
        out
    }

    /// The value of the field `name`. Every statement that sets the field is used
    /// up and the last one wins.
    pub fn opt_expr(&mut self, name: &str) -> (r: Option<&'a Spanned<Expr>>)
        ensures
            found(r) == old(self)@.value(PickView::Leaf(name@)),
            final(self)@ == old(self)@.without(PickView::Leaf(name@)),
    {
        let stmts = self.take(&Pick::Leaf(name));
        value_of_last(&stmts)
    }

    /// As `opt_expr`, with names compared without regard to case and `_`.
    pub fn opt_expr_normalized(&mut self, name: &str) -> (r: Option<&'a Spanned<Expr>>)
        ensures
            found(r) == old(self)@.value(PickView::Member(name@)),
            final(self)@ == old(self)@.without(PickView::Member(name@)),
    {
        let stmts = self.take(&Pick::Member(name));
        value_of_last(&stmts)
    }

    /// The field `name` as an integer, if it is set.
    pub fn opt_i32(&mut self, name: &str) -> (r: Result<Option<i32>, DefReaderError>)
        ensures
            final(self)@ == old(self)@.without(PickView::Leaf(name@)),
            read(r) == old(self)@.opt_i32(name@),
    {
        match self.opt_expr(name) {
            Some(e) => match self.eval.eval_i32(e) {
                Ok(v) => Ok(Some(v)),
                Err(e) => Err(e),
            },
            None => Ok(None),
        }
    }

    /// The field `name` as an unsigned integer, if it is set.
    pub fn opt_u32(&mut self, name: &str) -> (r: Result<Option<u32>, DefReaderError>)
        ensures
            final(self)@ == old(self)@.without(PickView::Leaf(name@)),
            read(r) == old(self)@.opt_u32(name@),
    {
        match self.opt_expr(name) {
            Some(e) => match self.eval.eval_u32(e) {
                Ok(v) => Ok(Some(v)),
                Err(e) => Err(e),
            },
            None => Ok(None),
        }
    }

    /// The field `name` as a floating-point number, if it is set.
    pub fn opt_single(&mut self, name: &str) -> (r: Result<Option<Single>, DefReaderError>)
        ensures
            final(self)@ == old(self)@.without(PickView::Leaf(name@)),
            read(r) == old(self)@.opt_single(name@),
    {
        match self.opt_expr(name) {
            Some(e) => match self.eval.eval_single(e) {
                Ok(v) => Ok(Some(v)),
                Err(e) => Err(e),
            },
            None => Ok(None),
        }
    }

    /// The field `name` as a truth value, if it is set.
    pub fn opt_bool(&mut self, name: &str) -> (r: Result<Option<bool>, DefReaderError>)
        ensures
            final(self)@ == old(self)@.without(PickView::Leaf(name@)),
            read(r) == old(self)@.opt_bool(name@),
    {
        match self.opt_expr(name) {
            Some(e) => match self.eval.eval_bool(e) {
                Ok(v) => Ok(Some(v)),
                Err(e) => Err(e),
            },
            None => Ok(None),
        }
    }

    /// The field `name` as a string, if it is set.
    pub fn opt_string(&mut self, name: &str) -> (r: Result<Option<String>, DefReaderError>)
        ensures
            final(self)@ == old(self)@.without(PickView::Leaf(name@)),
            read_opt_text(r) == old(self)@.opt_string(name@),
    {
        match self.opt_expr(name) {
            Some(e) => match self.eval.eval_string(e) {
                Ok(v) => Ok(Some(v)),
                Err(e) => Err(e),
            },
            None => Ok(None),
        }
    }

    /// A reader over the statements about the members of `name`, if there are any.
    pub fn group(&mut self, name: &str) -> (r: Option<DefReader<'a, 's>>)
        ensures
            final(self)@ == old(self)@.without(PickView::Group(name@)),
            (match r {
                Some(g) => Some(g@),
                None => None,
            }) == old(self)@.members(name@),
    {
        let stmts = self.take(&Pick::Group(name));
        if stmts.len() == 0 {
            return None;
        }
        proof {
            let before = old(self)@;
            lemma_picked(
                before.entries,
                PickView::Group(name@),
                before.depth,
                before.entries.len() as int,
            );
            assert(base::views(stmts@)[0] == stmts@[0]@);
        }
        Some(self.under(&stmts, 1))
    }

    /// A reader over `stmts`, the first of which has a path that goes `by` segments
    /// below this reader.
    fn under(&self, stmts: &Vec<&'a Spanned<Statement>>, by: usize) -> (r: DefReader<'a, 's>)
        requires
            stmts@.len() > 0,
            subject(stmts@[0]@.value) matches Some(path) && self@.depth + by <= path.len(),
        ensures
            r@ == self@.below(base::views(stmts@), by as int),
    {
        proof {
            ast::lemma_statement_view(stmts@[0].value);
        }
        let n: usize = match &stmts[0].value {
            Statement::Field(f) => f.path.segments.len(),
            Statement::MethodCall(m) => m.object.segments.len(),
            Statement::TaggedBlock(_) => 0,
        };
        DefReader { entries: fresh_entries(stmts), depth: self.depth + by, eval: self.eval }
    }

    /// The argument lists of the calls `object.method(…)`, in order.
    pub fn calls(&mut self, object: &str, method: &str) -> (r: Vec<Args<'a, 's>>)
        ensures
            final(self)@ == old(self)@.without(PickView::Calls(object@, method@)),
            base::views(r@) == old(self)@.call_args(object@, method@),
    {
        let stmts = self.take(&Pick::Calls(object, method));
        let ghost whole = old(self)@.call_args(object@, method@);
        let ghost before = old(self)@;
        let ghost pick = PickView::Calls(object@, method@);
        proof {
            lemma_picked(before.entries, pick, before.depth, before.entries.len() as int);
        }
        let mut out: Vec<Args<'a, 's>> = Vec::new();
        let mut i: usize = 0;
        while i < stmts.len()
            invariant
                i <= stmts@.len(),
                before == old(self)@,
                self@.symbols == before.symbols,
                whole == before.call_args(object@, method@),
                base::views(stmts@) == before.all(pick),
                pick == PickView::Calls(object@, method@),
                forall|j: int|
                    0 <= j < stmts@.len() ==> pick.picks(
                        (#[trigger] base::views(stmts@)[j]).value,
                        before.depth,
                    ),
                base::views(out@) == whole.take(i as int),
            decreases stmts@.len() - i,
        {
            let s = stmts[i];
            proof {
                assert(base::views(stmts@)[i as int] == s@);
                ast::lemma_statement_view(s.value);
                assert(whole.take(i as int + 1) =~= whole.take(i as int).push(whole[i as int]));
            }
            match &s.value {
                Statement::MethodCall(m) => out.push(Args::new(&m.call.arguments, self.eval)),
                _ => {
                    assert(false);
                },
            }
            i = i + 1;
        }
        assert(whole.take(stmts@.len() as int) =~= whole);
        out
    }

    /// The statements under `name[index]`, by ascending index. Where an index is not
    /// one, nothing is used up.
    pub fn indexed_sparse(&mut self, name: &str) -> (r: Result<
        Vec<(usize, DefReader<'a, 's>)>,
        DefReaderError,
    >)
        ensures
            match (r, old(self)@.by_index(name@)) {
                (Ok(v), Ok(groups)) => final(self)@ == old(self)@.without(PickView::Indexed(name@))
                    && indexed_views(v@) == old(self)@.indexed_readers(groups),
                (Err(e), Err(f)) => e@ == f && final(self)@ == old(self)@,
                _ => false,
            },
    {
        let stmts = self.select(&Pick::Indexed(name));
        let groups = match group_by_index(&stmts, self.depth, self.eval, Ghost(self@), Ghost(name@)) {
            Ok(g) => g,
            Err(e) => return Err(e),
        };
        self.mark(&Pick::Indexed(name));
        let ghost before = old(self)@;
        let ghost whole = before.indexed_readers(base::views(groups@));
        let mut out: Vec<(usize, DefReader<'a, 's>)> = Vec::new();
        let mut i: usize = 0;
        while i < groups.len()
            invariant
                i <= groups@.len(),
                self@.depth == before.depth,
                self@.symbols == before.symbols,
                groups_pick(base::views(groups@), PickView::Indexed(name@), before.depth),
                whole == before.indexed_readers(base::views(groups@)),
                indexed_views(out@) == whole.take(i as int),
            decreases groups@.len() - i,
        {
            proof {
                assert(base::views(groups@)[i as int] == groups@[i as int]@);
                let g = groups@[i as int];
                assert(base::views(g.stmts@)[0] == g.stmts@[0]@);
            }
            let reader = self.under(&groups[i].stmts, 2);
            out.push((groups[i].index, reader));
            proof {
                assert(whole.take(i as int + 1) =~= whole.take(i as int).push(whole[i as int]));
                assert(indexed_views(out@) =~= whole.take(i as int + 1));
            }
            i = i + 1;
        }
        assert(whole.take(groups@.len() as int) =~= whole);
        Ok(out)
    }

    /// The statements under `name[key]`, by key, in the order in which keys first
    /// come.
    pub fn keyed(&mut self, name: &str) -> (r: Vec<(&'a Spanned<Expr>, DefReader<'a, 's>)>)
        ensures
            final(self)@ == old(self)@.without(PickView::Keyed(name@)),
            keyed_views(r@) == old(self)@.keyed_readers(old(self)@.by_key(name@)),
    {
        let stmts = self.take(&Pick::Keyed(name));
        let ghost before = old(self)@;
        let groups = group_by_key(&stmts, self.depth, Ghost(before), Ghost(name@));
        let ghost whole = before.keyed_readers(base::views(groups@));
        let mut out: Vec<(&'a Spanned<Expr>, DefReader<'a, 's>)> = Vec::new();
        let mut i: usize = 0;
        while i < groups.len()
            invariant
                i <= groups@.len(),
                self@.depth == before.depth,
                self@.symbols == before.symbols,
                key_groups_pick(base::views(groups@), PickView::Keyed(name@), before.depth),
                whole == before.keyed_readers(base::views(groups@)),
                keyed_views(out@) == whole.take(i as int),
            decreases groups@.len() - i,
        {
            proof {
                assert(base::views(groups@)[i as int] == groups@[i as int]@);
                let g = groups@[i as int];
                assert(base::views(g.stmts@)[0] == g.stmts@[0]@);
            }
            let reader = self.under(&groups[i].stmts, 2);
            out.push((groups[i].key, reader));
            proof {
                assert(whole.take(i as int + 1) =~= whole.take(i as int).push(whole[i as int]));
                assert(keyed_views(out@) =~= whole.take(i as int + 1));
            }
            i = i + 1;
        }
        assert(whole.take(groups@.len() as int) =~= whole);
        out
    }

    /// The nameless value at this depth, which stays unused.
    pub fn peek_any_expr(&self) -> (r: Option<&'a Spanned<Expr>>)
        ensures
            found(r) == self@.value(PickView::Any),
    {
        let stmts = self.select(&Pick::Any);
        value_of_last(&stmts)
    }

    /// The nameless value at this depth; the last one wins.
    pub fn any_expr(&mut self) -> (r: Result<&'a Spanned<Expr>, DefReaderError>)
        ensures
            final(self)@ == old(self)@.without(PickView::Any),
            (match r {
                Ok(e) => Ok(e@),
                Err(e) => Err(e@),
            }) == old(self)@.any(),
    {
        let stmts = self.take(&Pick::Any);
        match value_of_last(&stmts) {
            Some(e) => Ok(e),
            None => Err(DefReaderError::MissingField("(any)", Span::synthetic())),
        }
    }

    pub fn any_i32(&mut self) -> (r: Result<i32, DefReaderError>)
        ensures
            final(self)@ == old(self)@.without(PickView::Any),
            read(r) == old(self)@.any_i32(),
    {
        match self.any_expr() {
            Ok(e) => self.eval.eval_i32(e),
            Err(e) => Err(e),
        }
    }

    pub fn any_u32(&mut self) -> (r: Result<u32, DefReaderError>)
        ensures
            final(self)@ == old(self)@.without(PickView::Any),
            read(r) == old(self)@.any_u32(),
    {
        match self.any_expr() {
            Ok(e) => self.eval.eval_u32(e),
            Err(e) => Err(e),
        }
    }

    pub fn any_single(&mut self) -> (r: Result<Single, DefReaderError>)
        ensures
            final(self)@ == old(self)@.without(PickView::Any),
            read(r) == old(self)@.any_single(),
    {
        match self.any_expr() {
            Ok(e) => self.eval.eval_single(e),
            Err(e) => Err(e),
        }
    }

    pub fn any_string(&mut self) -> (r: Result<String, DefReaderError>)
        ensures
            final(self)@ == old(self)@.without(PickView::Any),
            read_text(r) == old(self)@.any_string(),
    {
        match self.any_expr() {
            Ok(e) => self.eval.eval_string(e),
            Err(e) => Err(e),
        }
    }

    pub fn any_bool(&mut self) -> (r: Result<bool, DefReaderError>)
        ensures
            final(self)@ == old(self)@.without(PickView::Any),
            read(r) == old(self)@.any_bool(),
    {
        match self.any_expr() {
            Ok(e) => self.eval.eval_bool(e),
            Err(e) => Err(e),
        }
    }

    /// The statements that have not been used, in order.
    pub fn remaining_statements(&self) -> (r: Vec<Spanned<Statement>>)
        ensures
            base::views(r@) == self@.left_over(),
    {
        let mut out: Vec<Spanned<Statement>> = Vec::new();
        let mut i: usize = 0;
        while i < self.entries.len()
            invariant
                i <= self.entries@.len(),
                base::views(out@) == unused(self@.entries, i as int),
            decreases self.entries@.len() - i,
        {
            assert(self@.entries[i as int] == self.entries@[i as int]@);
            if !self.entries[i].consumed {
                out.push(clone_statement(self.entries[i].stmt));
            }
            i = i + 1;
        }
        out
    }

    /// Whether every statement has been used.
    pub fn finish(self) -> (r: Result<(), DefReaderError>)
        ensures
            read(r) == self@.finished(),
    {
        self.is_finished()
    }

    /// Whether every statement has been used so far.
    pub fn is_finished(&self) -> (r: Result<(), DefReaderError>)
        ensures
            read(r) == self@.finished(),
    {
        let rest = self.remaining_statements();
        if rest.len() == 0 {
            Ok(())
        } else {
            assert(base::views(rest@)[0] == rest@[0]@);
            Err(DefReaderError::UnexpectedStatement(clone_statement(&rest[0])))
        }
    }
}

fn group_by_index<'a, 's>(
    stmts: &Vec<&'a Spanned<Statement>>,
    depth: usize,
    eval: Evaluator<'s>,
    reader: Ghost<ReaderView>,
    name: Ghost<Seq<char>>,
) -> (r: Result<Vec<Indexed<'a>>, DefReaderError>)
    requires
        base::views(stmts@) == reader@.all(PickView::Indexed(name@)),
        depth == reader@.depth,
        eval@ == reader@.symbols,
    ensures
        match (r, reader@.by_index(name@)) {
            (Ok(v), Ok(groups)) => base::views(v@) == groups && groups_pick(
                groups,
                PickView::Indexed(name@),
                depth as int,
            ),
            (Err(e), Err(f)) => e@ == f,
            _ => false,
        },
{
    let ghost pick = PickView::Indexed(name@);
    proof {
        let v = reader@;
        lemma_picked(v.entries, pick, v.depth, v.entries.len() as int);
    }
    let ghost all = base::views(stmts@);
    let mut groups: Vec<Indexed<'a>> = Vec::new();
    let mut i: usize = 0;
    while i < stmts.len()
        invariant
            i <= stmts@.len(),
            all == base::views(stmts@),
            all == reader@.all(pick),
            pick == PickView::Indexed(name@),
            depth == reader@.depth,
            eval@ == reader@.symbols,
            forall|j: int|
                0 <= j < all.len() ==> pick.picks((#[trigger] all[j]).value, depth as int),
            grouped(eval@, all, depth as int, i as int) == Ok::<Seq<IndexGroup>, ReaderErrorView>(
                base::views(groups@),
            ),
            groups_pick(base::views(groups@), pick, depth as int),
        decreases stmts@.len() - i,
    {
        let s = stmts[i];
        assert(all[i as int] == s@);
        match index_expr(&s.value, depth) {
            Some(e) => match eval.eval_usize(e) {
                Ok(index) => {
                    proof {
                        lemma_add_indexed_pick(
                            base::views(groups@),
                            0,
                            index,
                            s@,
                            pick,
                            depth as int,
                        );
                    }
                    add_to_indexed(&mut groups, index, s);
                },
                Err(err) => {
                    proof {
                        lemma_grouped_error(eval@, all, depth as int, i as int + 1, all.len() as int);
                    }
                    return Err(err);
                },
            },
            None => {
                assert(false);
            },
        }
        i = i + 1;
    }
    Ok(groups)
}

fn group_by_key<'a>(
    stmts: &Vec<&'a Spanned<Statement>>,
    depth: usize,
    reader: Ghost<ReaderView>,
    name: Ghost<Seq<char>>,
) -> (r: Vec<Keyed<'a>>)
    requires
        base::views(stmts@) == reader@.all(PickView::Keyed(name@)),
        depth == reader@.depth,
    ensures
        base::views(r@) == reader@.by_key(name@),
        key_groups_pick(base::views(r@), PickView::Keyed(name@), depth as int),
{
    let ghost pick = PickView::Keyed(name@);
    proof {
        let v = reader@;
        lemma_picked(v.entries, pick, v.depth, v.entries.len() as int);
    }
    let ghost all = base::views(stmts@);
    let mut groups: Vec<Keyed<'a>> = Vec::new();
    let mut i: usize = 0;
    while i < stmts.len()
        invariant
            i <= stmts@.len(),
            all == base::views(stmts@),
            all == reader@.all(pick),
            pick == PickView::Keyed(name@),
            depth == reader@.depth,
            forall|j: int|
                0 <= j < all.len() ==> pick.picks((#[trigger] all[j]).value, depth as int),
            keyed_groups(all, depth as int, i as int) == base::views(groups@),
            key_groups_pick(base::views(groups@), pick, depth as int),
        decreases stmts@.len() - i,
    {
        let s = stmts[i];
        assert(all[i as int] == s@);
        assert(PickView::Indexed(name@).picks(s@.value, depth as int));
        match index_expr(&s.value, depth) {
            Some(e) => {
                proof {
                    lemma_add_keyed_pick(base::views(groups@), 0, e@, s@, pick, depth as int);
                }
                add_to_keyed(&mut groups, e, s);
            },
            None => {
                assert(false);
            },
        }
        i = i + 1;
    }
    groups
}

// ── Facts about grouping ─────────────────────────────────────────────────────

/// What `indexed_sparse` hands out, by views.
pub open spec fn indexed_views(v: Seq<(usize, DefReader)>) -> Seq<(usize, ReaderView)> {
    Seq::new(v.len(), |i: int| (v[i].0, v[i].1@))
}

/// What `keyed` hands out, by views.
pub open spec fn keyed_views(v: Seq<(&Spanned<Expr>, DefReader)>) -> Seq<
    (Spanned<ExprView>, ReaderView),
> {
    Seq::new(v.len(), |i: int| (v[i].0@, v[i].1@))
}

/// Every group has a statement, and its statements have the given form.
pub open spec fn groups_pick(groups: Seq<IndexGroup>, pick: PickView, depth: int) -> bool {
    forall|i: int|
        0 <= i < groups.len() ==> (#[trigger] groups[i]).stmts.len() > 0 && pick.picks(
            groups[i].stmts[0].value,
            depth,
        )
}

/// Every group has a statement, and its statements have the given form.
pub open spec fn key_groups_pick(groups: Seq<KeyGroup>, pick: PickView, depth: int) -> bool {
    forall|i: int|
        0 <= i < groups.len() ==> (#[trigger] groups[i]).stmts.len() > 0 && pick.picks(
            groups[i].stmts[0].value,
            depth,
        )
}

/// The length of the path that a statement is about.
pub open spec fn path_len(s: StatementView) -> int {
    match subject(s) {
        Some(path) => path.len() as int,
        None => 0,
    }
}

/// The length of the longest path among the first `k` entries.
pub open spec fn longest(entries: Seq<EntryView>, k: int) -> int
    decreases k,
{
    if k <= 0 || k > entries.len() {
        0
    } else {
        let rest = longest(entries, k - 1);
        let here = path_len(entries[k - 1].stmt.value);
        if here > rest {
            here
        } else {
            rest
        }
    }
}

impl ReaderView {
    /// How much deeper than the reader the paths of its statements go.
    pub open spec fn room(self) -> int {
        longest(self.entries, self.entries.len() as int) - self.depth
    }

    /// The number of groups of statements that share an index of `name`.
    pub open spec fn index_count(self, name: Seq<char>) -> nat {
        match self.by_index(name) {
            Ok(groups) => groups.len(),
            Err(_) => 0,
        }
    }
}

proof fn lemma_longest_same(a: Seq<EntryView>, b: Seq<EntryView>, k: int)
    requires
        a.len() == b.len(),
        forall|i: int| 0 <= i < a.len() ==> (#[trigger] a[i]).stmt == b[i].stmt,
    ensures
        longest(a, k) == longest(b, k),
    decreases k,
{
    if 0 < k <= a.len() {
        lemma_longest_same(a, b, k - 1);
        assert(a[k - 1].stmt == b[k - 1].stmt);
    }
}

/// Using statements up leaves the room of a reader as it is.
pub proof fn lemma_without_room(r: ReaderView, pick: PickView)
    ensures
        r.without(pick).room() == r.room(),
{
    lemma_longest_same(r.without(pick).entries, r.entries, r.entries.len() as int);
}

proof fn lemma_longest_bounds(entries: Seq<EntryView>, k: int, i: int)
    requires
        0 <= i < k <= entries.len(),
    ensures
        path_len(entries[i].stmt.value) <= longest(entries, k),
    decreases k,
{
    if i < k - 1 {
        lemma_longest_bounds(entries, k - 1, i);
    }
}

/// Every statement has a path of at most `bound`.
spec fn bounded(stmts: Seq<Spanned<StatementView>>, bound: int) -> bool {
    forall|i: int| 0 <= i < stmts.len() ==> path_len((#[trigger] stmts[i]).value) <= bound
}

proof fn lemma_picked_bounded(entries: Seq<EntryView>, pick: PickView, depth: int, k: int)
    requires
        0 <= k <= entries.len(),
    ensures
        bounded(picked(entries, pick, depth, k), longest(entries, k)),
    decreases k,
{
    if k > 0 {
        lemma_picked_bounded(entries, pick, depth, k - 1);
        let all = picked(entries, pick, depth, k);
        let before = picked(entries, pick, depth, k - 1);
        assert forall|i: int| 0 <= i < all.len() implies path_len((#[trigger] all[i]).value)
            <= longest(entries, k) by {
            if i < before.len() {
                assert(all[i] == before[i]);
            }
        }
    }
}

proof fn lemma_longest_at_most(entries: Seq<EntryView>, k: int, bound: int)
    requires
        0 <= k <= entries.len(),
        0 <= bound,
        forall|i: int| 0 <= i < k ==> path_len((#[trigger] entries[i]).stmt.value) <= bound,
    ensures
        longest(entries, k) <= bound,
    decreases k,
{
    if k > 0 {
        lemma_longest_at_most(entries, k - 1, bound);
    }
}

proof fn lemma_below_room(r: ReaderView, stmts: Seq<Spanned<StatementView>>, by: int)
    requires
        by > 0,
        stmts.len() > 0,
        bounded(stmts, longest(r.entries, r.entries.len() as int)),
        path_len(stmts[0].value) >= r.depth + by,
    ensures
        0 <= r.below(stmts, by).room() < r.room(),
{
    let top = longest(r.entries, r.entries.len() as int);
    let entries = fresh(stmts);
    assert(path_len(stmts[0].value) <= top);
    assert forall|i: int| 0 <= i < entries.len() implies path_len(
        (#[trigger] entries[i]).stmt.value,
    ) <= top by {
        assert(entries[i].stmt == stmts[i]);
    }
    lemma_longest_at_most(entries, entries.len() as int, top);
    lemma_longest_bounds(entries, entries.len() as int, 0);
}

/// Every group of statements has a path of at most `bound`.
spec fn groups_bounded(groups: Seq<IndexGroup>, bound: int) -> bool {
    forall|i: int| 0 <= i < groups.len() ==> bounded((#[trigger] groups[i]).stmts, bound)
}

/// Every group of statements has a path of at most `bound`.
spec fn key_groups_bounded(groups: Seq<KeyGroup>, bound: int) -> bool {
    forall|i: int| 0 <= i < groups.len() ==> bounded((#[trigger] groups[i]).stmts, bound)
}

proof fn lemma_add_indexed_bounded(
    groups: Seq<IndexGroup>,
    k: int,
    index: usize,
    stmt: Spanned<StatementView>,
    bound: int,
)
    requires
        0 <= k <= groups.len(),
        groups_bounded(groups, bound),
        path_len(stmt.value) <= bound,
    ensures
        groups_bounded(add_indexed(groups, k, index, stmt), bound),
    decreases groups.len() - k,
{
    if k >= groups.len() || index < groups[k].index {
    } else if index == groups[k].index {
        assert(bounded(groups[k].stmts.push(stmt), bound));
    } else {
        lemma_add_indexed_bounded(groups, k + 1, index, stmt, bound);
    }
}

proof fn lemma_add_keyed_bounded(
    groups: Seq<KeyGroup>,
    k: int,
    key: Spanned<ExprView>,
    stmt: Spanned<StatementView>,
    bound: int,
)
    requires
        0 <= k <= groups.len(),
        key_groups_bounded(groups, bound),
        path_len(stmt.value) <= bound,
    ensures
        key_groups_bounded(add_keyed(groups, k, key, stmt), bound),
    decreases groups.len() - k,
{
    if k >= groups.len() {
    } else if ast::expr_text(groups[k].key.value) == ast::expr_text(key.value) {
        assert(bounded(groups[k].stmts.push(stmt), bound));
    } else {
        lemma_add_keyed_bounded(groups, k + 1, key, stmt, bound);
    }
}

/// Every index is an `i32`.
spec fn small(groups: Seq<IndexGroup>) -> bool {
    forall|i: int| 0 <= i < groups.len() ==> (#[trigger] groups[i]).index <= i32::MAX
}

proof fn lemma_add_indexed_small(
    groups: Seq<IndexGroup>,
    k: int,
    index: usize,
    stmt: Spanned<StatementView>,
)
    requires
        0 <= k <= groups.len(),
        small(groups),
        index <= i32::MAX,
    ensures
        small(add_indexed(groups, k, index, stmt)),
    decreases groups.len() - k,
{
    if k < groups.len() && index > groups[k].index {
        lemma_add_indexed_small(groups, k + 1, index, stmt);
    }
}

proof fn lemma_grouped_small(
    syms: Symbols,
    stmts: Seq<Spanned<StatementView>>,
    depth: int,
    k: int,
)
    ensures
        grouped(syms, stmts, depth, k) matches Ok(groups) ==> small(groups),
    decreases k,
{
    if 0 < k <= stmts.len() {
        lemma_grouped_small(syms, stmts, depth, k - 1);
        match grouped(syms, stmts, depth, k - 1) {
            Ok(groups) => {
                let e = index_of(stmts[k - 1].value, depth);
                match eval::as_usize(syms, e.value) {
                    Ok(index) => lemma_add_indexed_small(groups, 0, index, stmts[k - 1]),
                    Err(_) => {},
                }
            },
            Err(_) => {},
        }
    }
}

/// An index is an `i32`.
pub proof fn lemma_index_small(r: ReaderView, name: Seq<char>, k: int)
    ensures
        r.by_index(name) matches Ok(groups) ==> (0 <= k < groups.len() ==> groups[k].index
            <= i32::MAX),
{
    let stmts = r.all(PickView::Indexed(name));
    lemma_grouped_small(r.symbols, stmts, r.depth, stmts.len() as int);
}

proof fn lemma_grouped(
    syms: Symbols,
    stmts: Seq<Spanned<StatementView>>,
    depth: int,
    k: int,
    pick: PickView,
    bound: int,
)
    requires
        bounded(stmts, bound),
        forall|i: int| 0 <= i < stmts.len() ==> pick.picks((#[trigger] stmts[i]).value, depth),
    ensures
        grouped(syms, stmts, depth, k) matches Ok(groups) ==> groups_bounded(groups, bound)
            && groups_pick(groups, pick, depth),
    decreases k,
{
    if 0 < k <= stmts.len() {
        lemma_grouped(syms, stmts, depth, k - 1, pick, bound);
        match grouped(syms, stmts, depth, k - 1) {
            Ok(groups) => {
                let e = index_of(stmts[k - 1].value, depth);
                match eval::as_usize(syms, e.value) {
                    Ok(index) => {
                        lemma_add_indexed_bounded(groups, 0, index, stmts[k - 1], bound);
                        lemma_add_indexed_pick(groups, 0, index, stmts[k - 1], pick, depth);
                    },
                    Err(_) => {},
                }
            },
            Err(_) => {},
        }
    }
}

proof fn lemma_keyed_groups(
    stmts: Seq<Spanned<StatementView>>,
    depth: int,
    k: int,
    pick: PickView,
    bound: int,
)
    requires
        bounded(stmts, bound),
        forall|i: int| 0 <= i < stmts.len() ==> pick.picks((#[trigger] stmts[i]).value, depth),
    ensures
        key_groups_bounded(keyed_groups(stmts, depth, k), bound),
        key_groups_pick(keyed_groups(stmts, depth, k), pick, depth),
    decreases k,
{
    if 0 < k <= stmts.len() {
        lemma_keyed_groups(stmts, depth, k - 1, pick, bound);
        let groups = keyed_groups(stmts, depth, k - 1);
        let e = index_of(stmts[k - 1].value, depth);
        lemma_add_keyed_bounded(groups, 0, e, stmts[k - 1], bound);
        lemma_add_keyed_pick(groups, 0, e, stmts[k - 1], pick, depth);
    }
}

/// A reader over statements that share an index has less room.
pub proof fn lemma_index_room(r: ReaderView, name: Seq<char>, k: int)
    ensures
        r.by_index(name) matches Ok(groups) ==> (0 <= k < groups.len() ==> 0 <= r.below(
            groups[k].stmts,
            2,
        ).room() < r.room()),
{
    let pick = PickView::Indexed(name);
    let n = r.entries.len() as int;
    lemma_picked(r.entries, pick, r.depth, n);
    lemma_picked_bounded(r.entries, pick, r.depth, n);
    let stmts = r.all(pick);
    lemma_grouped(r.symbols, stmts, r.depth, stmts.len() as int, pick, longest(r.entries, n));
    match r.by_index(name) {
        Ok(groups) => if 0 <= k < groups.len() {
            assert(pick.picks(groups[k].stmts[0].value, r.depth));
            lemma_below_room(r, groups[k].stmts, 2);
        },
        Err(_) => {},
    }
}

/// A reader over statements that share a key has less room.
pub proof fn lemma_key_room(r: ReaderView, name: Seq<char>, k: int)
    requires
        0 <= k < r.by_key(name).len(),
    ensures
        0 <= r.below(r.by_key(name)[k].stmts, 2).room() < r.room(),
{
    let pick = PickView::Keyed(name);
    let n = r.entries.len() as int;
    lemma_picked(r.entries, pick, r.depth, n);
    lemma_picked_bounded(r.entries, pick, r.depth, n);
    let stmts = r.all(pick);
    lemma_keyed_groups(stmts, r.depth, stmts.len() as int, pick, longest(r.entries, n));
    let groups = r.by_key(name);
    assert(pick.picks(groups[k].stmts[0].value, r.depth));
    lemma_below_room(r, groups[k].stmts, 2);
}

proof fn lemma_picked(entries: Seq<EntryView>, pick: PickView, depth: int, k: int)
    ensures
        forall|i: int|
            0 <= i < picked(entries, pick, depth, k).len() ==> pick.picks(
                (#[trigger] picked(entries, pick, depth, k)[i]).value,
                depth,
            ),
    decreases k,
{
    if 0 < k <= entries.len() {
        lemma_picked(entries, pick, depth, k - 1);
        let all = picked(entries, pick, depth, k);
        let before = picked(entries, pick, depth, k - 1);
        assert forall|i: int| 0 <= i < all.len() implies pick.picks(
            (#[trigger] all[i]).value,
            depth,
        ) by {
            if i < before.len() {
                assert(all[i] == before[i]);
            }
        }
    }
}

proof fn lemma_add_indexed_pick(
    groups: Seq<IndexGroup>,
    k: int,
    index: usize,
    stmt: Spanned<StatementView>,
    pick: PickView,
    depth: int,
)
    requires
        0 <= k <= groups.len(),
        groups_pick(groups, pick, depth),
        pick.picks(stmt.value, depth),
    ensures
        groups_pick(add_indexed(groups, k, index, stmt), pick, depth),
    decreases groups.len() - k,
{
    if k >= groups.len() || index < groups[k].index {
    } else if index == groups[k].index {
        assert(groups[k].stmts.push(stmt)[0] == groups[k].stmts[0]);
    } else {
        lemma_add_indexed_pick(groups, k + 1, index, stmt, pick, depth);
    }
}

proof fn lemma_add_keyed_pick(
    groups: Seq<KeyGroup>,
    k: int,
    key: Spanned<ExprView>,
    stmt: Spanned<StatementView>,
    pick: PickView,
    depth: int,
)
    requires
        0 <= k <= groups.len(),
        key_groups_pick(groups, pick, depth),
        pick.picks(stmt.value, depth),
    ensures
        key_groups_pick(add_keyed(groups, k, key, stmt), pick, depth),
    decreases groups.len() - k,
{
    if k >= groups.len() {
    } else if ast::expr_text(groups[k].key.value) == ast::expr_text(key.value) {
        assert(groups[k].stmts.push(stmt)[0] == groups[k].stmts[0]);
    } else {
        lemma_add_keyed_pick(groups, k + 1, key, stmt, pick, depth);
    }
}

proof fn lemma_grouped_error(
    syms: Symbols,
    stmts: Seq<Spanned<StatementView>>,
    depth: int,
    i: int,
    j: int,
)
    requires
        0 <= i <= j <= stmts.len(),
        grouped(syms, stmts, depth, i) is Err,
    ensures
        grouped(syms, stmts, depth, j) == grouped(syms, stmts, depth, i),
    decreases j - i,
{
    if i < j {
        lemma_grouped_error(syms, stmts, depth, i, j - 1);
    }
}

// ── Laws ─────────────────────────────────────────────────────────────────────

proof fn lemma_nothing_picked_again(r: ReaderView, pick: PickView, k: int)
    ensures
        picked(r.without(pick).entries, pick, r.depth, k) == Seq::<Spanned<StatementView>>::empty(),
    decreases k,
{
    if 0 < k <= r.entries.len() {
        lemma_nothing_picked_again(r, pick, k - 1);
    }
}

/// A statement is read once: what has been picked is not picked again.
pub proof fn a_statement_is_read_once(r: ReaderView, pick: PickView)
    ensures
        r.without(pick).all(pick).len() == 0,
        r.without(pick).value(pick) is None,
        r.without(pick).without(pick) == r.without(pick),
{
    lemma_nothing_picked_again(r, pick, r.entries.len() as int);
    assert(r.without(pick).without(pick).entries =~= r.without(pick).entries);
}

proof fn lemma_used_or_left(r: ReaderView, pick: PickView, k: int)
    requires
        0 <= k <= r.entries.len(),
    ensures
        unused(r.without(pick).entries, k).len() + picked(r.entries, pick, r.depth, k).len()
            == unused(r.entries, k).len(),
    decreases k,
{
    if 0 < k {
        lemma_used_or_left(r, pick, k - 1);
    }
}

/// Every statement is accounted for: what a read picks leaves what is left over, and
/// nothing else does.
pub proof fn what_is_read_is_not_left_over(r: ReaderView, pick: PickView)
    ensures
        r.without(pick).left_over().len() + r.all(pick).len() == r.left_over().len(),
{
    lemma_used_or_left(r, pick, r.entries.len() as int);
}

proof fn lemma_picked_apart(r: ReaderView, pick: PickView, other: PickView, k: int)
    requires
        forall|s: StatementView| !(#[trigger] pick.picks(s, r.depth) && other.picks(s, r.depth)),
    ensures
        picked(r.without(pick).entries, other, r.depth, k) == picked(r.entries, other, r.depth, k),
    decreases k,
{
    if 0 < k <= r.entries.len() {
        lemma_picked_apart(r, pick, other, k - 1);
        assert(!(pick.picks(r.entries[k - 1].stmt.value, r.depth) && other.picks(
            r.entries[k - 1].stmt.value,
            r.depth,
        )));
    }
}

/// Reading one field leaves the statements about another as they are.
pub proof fn reading_a_field_leaves_the_others(r: ReaderView, name: Seq<char>, other: Seq<char>)
    requires
        name != other,
    ensures
        r.without(PickView::Leaf(name)).all(PickView::Leaf(other)) == r.all(PickView::Leaf(other)),
        r.without(PickView::Leaf(name)).value(PickView::Leaf(other)) == r.value(
            PickView::Leaf(other),
        ),
{
    lemma_picked_apart(
        r,
        PickView::Leaf(name),
        PickView::Leaf(other),
        r.entries.len() as int,
    );
}

/// The last statement about a field wins, whatever the statements before it say.
pub proof fn the_last_statement_wins(r: ReaderView, path: Seq<SegmentView>, expr: Spanned<ExprView>)
    requires
        r.entries.len() > 0,
        !r.entries.last().consumed,
        r.entries.last().stmt.value == (StatementView::Field { path, expr }),
        path.len() == r.depth + 1,
        r.depth >= 0,
        path.last() is Field,
    ensures
        r.value(PickView::Leaf(path.last()->Field_0)) == Some(expr),
        r.value(PickView::Member(path.last()->Field_0)) == Some(expr),
{
}

/// Reading is complete exactly when every statement has been used.
pub proof fn nothing_left_means_finished(r: ReaderView)
    ensures
        r.finished() is Ok <==> forall|i: int|
            0 <= i < r.entries.len() ==> (#[trigger] r.entries[i]).consumed,
{
    lemma_unused_none(r.entries, r.entries.len() as int);
}

proof fn lemma_unused_none(entries: Seq<EntryView>, k: int)
    requires
        0 <= k <= entries.len(),
    ensures
        unused(entries, k).len() == 0 <==> forall|i: int|
            0 <= i < k ==> (#[trigger] entries[i]).consumed,
    decreases k,
{
    if 0 < k {
        lemma_unused_none(entries, k - 1);
        if entries[k - 1].consumed && unused(entries, k - 1).len() == 0 {
            assert forall|i: int| 0 <= i < k implies (#[trigger] entries[i]).consumed by {
                if i < k - 1 {
                }
            }
        }
    }
}

/// Groups in ascending order of index, no index twice, none of them empty.
pub open spec fn ascending(groups: Seq<IndexGroup>) -> bool {
    &&& forall|i: int, j: int|
        0 <= i < j < groups.len() ==> groups[i].index < groups[j].index
    &&& forall|i: int| 0 <= i < groups.len() ==> (#[trigger] groups[i]).stmts.len() > 0
}

/// The number of statements in the first `k` groups.
pub open spec fn group_total(groups: Seq<IndexGroup>, k: int) -> int
    decreases k,
{
    if k <= 0 || k > groups.len() {
        0
    } else {
        group_total(groups, k - 1) + groups[k - 1].stmts.len()
    }
}

proof fn lemma_total_same(a: Seq<IndexGroup>, b: Seq<IndexGroup>, k: int)
    requires
        0 <= k <= a.len(),
        k <= b.len(),
        forall|i: int| 0 <= i < k ==> a[i] == b[i],
    ensures
        group_total(a, k) == group_total(b, k),
    decreases k,
{
    if 0 < k {
        lemma_total_same(a, b, k - 1);
    }
}

proof fn lemma_total_update(groups: Seq<IndexGroup>, at: int, g: IndexGroup, k: int)
    requires
        0 <= at < k <= groups.len(),
    ensures
        group_total(groups.update(at, g), k) == group_total(groups, k) - groups[at].stmts.len()
            + g.stmts.len(),
    decreases k,
{
    if at == k - 1 {
        lemma_total_same(groups, groups.update(at, g), k - 1);
    } else {
        lemma_total_update(groups, at, g, k - 1);
    }
}

proof fn lemma_total_insert(groups: Seq<IndexGroup>, at: int, g: IndexGroup, k: int)
    requires
        0 <= at <= k <= groups.len(),
    ensures
        group_total(groups.insert(at, g), k + 1) == group_total(groups, k) + g.stmts.len(),
    decreases k,
{
    if at == k {
        lemma_total_same(groups, groups.insert(at, g), k);
    } else {
        lemma_total_insert(groups, at, g, k - 1);
        assert(groups.insert(at, g)[k] == groups[k - 1]);
    }
}

proof fn lemma_add_ascends(
    groups: Seq<IndexGroup>,
    k: int,
    index: usize,
    stmt: Spanned<StatementView>,
)
    requires
        ascending(groups),
        0 <= k <= groups.len(),
        forall|i: int| 0 <= i < k ==> (#[trigger] groups[i]).index < index,
    ensures
        ascending(add_indexed(groups, k, index, stmt)),
        group_total(
            add_indexed(groups, k, index, stmt),
            add_indexed(groups, k, index, stmt).len() as int,
        ) == group_total(groups, groups.len() as int) + 1,
    decreases groups.len() - k,
{
    if k >= groups.len() || index < groups[k].index {
        lemma_total_insert(
            groups,
            k,
            IndexGroup { index, stmts: seq![stmt] },
            groups.len() as int,
        );
    } else if index == groups[k].index {
        lemma_total_update(
            groups,
            k,
            IndexGroup { index, stmts: groups[k].stmts.push(stmt) },
            groups.len() as int,
        );
    } else {
        lemma_add_ascends(groups, k + 1, index, stmt);
    }
}

/// Statements under indices are handed out in ascending order of index, each index
/// once, and every statement in one group.
pub proof fn index_groups_ascend(
    syms: Symbols,
    stmts: Seq<Spanned<StatementView>>,
    depth: int,
    k: int,
)
    requires
        0 <= k <= stmts.len(),
    ensures
        match grouped(syms, stmts, depth, k) {
            Ok(groups) => ascending(groups) && group_total(groups, groups.len() as int) == k,
            Err(_) => true,
        },
    decreases k,
{
    if 0 < k {
        index_groups_ascend(syms, stmts, depth, k - 1);
        if let Ok(groups) = grouped(syms, stmts, depth, k - 1) {
            let e = index_of(stmts[k - 1].value, depth);
            if let Ok(index) = eval::as_usize(syms, e.value) {
                lemma_add_ascends(groups, 0, index, stmts[k - 1]);
            }
        }
    }
}

/// Whether no two groups have keys of the same source form.
pub open spec fn keys_differ(groups: Seq<KeyGroup>) -> bool {
    forall|i: int, j: int|
        0 <= i < j < groups.len() ==> ast::expr_text(groups[i].key.value) != ast::expr_text(
            groups[j].key.value,
        )
}

proof fn lemma_add_keeps_keys(
    groups: Seq<KeyGroup>,
    k: int,
    key: Spanned<ExprView>,
    stmt: Spanned<StatementView>,
)
    requires
        keys_differ(groups),
        0 <= k <= groups.len(),
        forall|i: int|
            0 <= i < k ==> ast::expr_text((#[trigger] groups[i]).key.value) != ast::expr_text(
                key.value,
            ),
    ensures
        keys_differ(add_keyed(groups, k, key, stmt)),
    decreases groups.len() - k,
{
    if k < groups.len() && ast::expr_text(groups[k].key.value) != ast::expr_text(key.value) {
        lemma_add_keeps_keys(groups, k + 1, key, stmt);
    }
}

/// A key is handed out once, however many statements use it.
pub proof fn a_key_comes_once(stmts: Seq<Spanned<StatementView>>, depth: int, k: int)
    ensures
        keys_differ(keyed_groups(stmts, depth, k)),
    decreases k,
{
    if 0 < k <= stmts.len() {
        a_key_comes_once(stmts, depth, k - 1);
        lemma_add_keeps_keys(
            keyed_groups(stmts, depth, k - 1),
            0,
            index_of(stmts[k - 1].value, depth),
            stmts[k - 1],
        );
    }
}

} // verus!
