//! What lowering needs from the whole set of definitions, and its errors.

use vstd::prelude::*;

use crate::eval;
use crate::eval::{EvalError, EvalErrorView, Evaluator, Symbols};
use crate::reader;
use crate::reader::{DefReaderError, ReaderErrorView};
use crate::strings::push_text;
use crate::text::ast;
use crate::text::ast::{Expr, ExprView};
use crate::text::base::{Span, Spanned};
use crate::value::{MemberView, Record};

verus! {

// ── Errors ───────────────────────────────────────────────────────────────────

/// Why a definition cannot be lowered.
#[derive(Debug)]
pub enum LowerError {
    Unsupported(String),
    MissingParent { def: String, parent: String, span: Option<Span> },
    SpecializationCycle(String, Option<Span>),
    UnresolvedReference(String, Option<Span>),
    Reader(DefReaderError),
}

/// What a [`LowerError`] says.
pub enum LowerErrorView {
    Unsupported(Seq<char>),
    MissingParent { def: Seq<char>, parent: Seq<char>, span: Option<Span> },
    SpecializationCycle(Seq<char>, Option<Span>),
    UnresolvedReference(Seq<char>, Option<Span>),
    Reader(ReaderErrorView),
}

impl View for LowerError {
    type V = LowerErrorView;

    open spec fn view(&self) -> LowerErrorView {
        match *self {
            LowerError::Unsupported(t) => LowerErrorView::Unsupported(t@),
            LowerError::MissingParent { def, parent, span } => LowerErrorView::MissingParent {
                def: def@,
                parent: parent@,
                span,
            },
            LowerError::SpecializationCycle(n, s) => LowerErrorView::SpecializationCycle(n@, s),
            LowerError::UnresolvedReference(n, s) => LowerErrorView::UnresolvedReference(n@, s),
            LowerError::Reader(e) => LowerErrorView::Reader(e@),
        }
    }
}

impl LowerErrorView {
    /// The message of the error.
    pub open spec fn message(self) -> Seq<char> {
        match self {
            LowerErrorView::Unsupported(t) => "no lowering for def type "@ + t,
            LowerErrorView::MissingParent { def, parent, .. } => "definition "@ + def
                + " specializes unknown parent "@ + parent,
            LowerErrorView::SpecializationCycle(name, _) => "specialization cycle detected at "@
                + name,
            LowerErrorView::UnresolvedReference(name, _) => "unresolved reference: "@ + name,
            LowerErrorView::Reader(e) => e.message(),
        }
    }

    /// Where the error is.
    pub open spec fn place(self) -> Option<Span> {
        match self {
            LowerErrorView::Unsupported(_) => None,
            LowerErrorView::MissingParent { span, .. } => span,
            LowerErrorView::SpecializationCycle(_, span) => span,
            LowerErrorView::UnresolvedReference(_, span) => span,
            LowerErrorView::Reader(e) => match e {
                ReaderErrorView::Eval(_, span) => Some(span),
                ReaderErrorView::Semantic(_, span) => span,
                ReaderErrorView::MissingField(_, span) => Some(span),
                ReaderErrorView::MissingArg(_, span) => Some(span),
                ReaderErrorView::UnexpectedStatement(s) => Some(s.span),
            },
        }
    }
}

impl From<DefReaderError> for LowerError {
    fn from(error: DefReaderError) -> (r: Self) {
        LowerError::Reader(error)
    }
}

impl vstd::std_specs::convert::FromSpecImpl<DefReaderError> for LowerError {
    open spec fn obeys_from_spec() -> bool {
        true
    }

    open spec fn from_spec(error: DefReaderError) -> Self {
        LowerError::Reader(error)
    }
}

impl LowerError {
    /// The message of the error.
    pub fn message(&self) -> (r: String)
        ensures
            r@ == self@.message(),
    {
        let mut out = String::new();
        match self {
            LowerError::Unsupported(t) => {
                push_text(&mut out, "no lowering for def type ");
                push_text(&mut out, t.as_str());
            },
            LowerError::MissingParent { def, parent, .. } => {
                push_text(&mut out, "definition ");
                push_text(&mut out, def.as_str());
                push_text(&mut out, " specializes unknown parent ");
                push_text(&mut out, parent.as_str());
            },
            LowerError::SpecializationCycle(name, _) => {
                push_text(&mut out, "specialization cycle detected at ");
                push_text(&mut out, name.as_str());
            },
            LowerError::UnresolvedReference(name, _) => {
                push_text(&mut out, "unresolved reference: ");
                push_text(&mut out, name.as_str());
            },
            LowerError::Reader(e) => return e.message(),
        }
        assert(out@ =~= self@.message());
        out
    }

    /// The source span of the error: the expression, statement or `specialises`
    /// clause that caused it.
    pub fn primary_span(&self) -> (r: Option<Span>)
        ensures
            r == self@.place(),
    {
        match self {
            LowerError::Unsupported(_) => None,
            LowerError::MissingParent { span, .. } => *span,
            LowerError::SpecializationCycle(_, span) => *span,
            LowerError::UnresolvedReference(_, span) => *span,
            LowerError::Reader(e) => match e {
                DefReaderError::Eval(_, span) => Some(*span),
                DefReaderError::Semantic(_, span) => *span,
                DefReaderError::MissingField(_, span) => Some(*span),
                DefReaderError::MissingArg(_, span) => Some(*span),
                DefReaderError::UnexpectedStatement(s) => Some(s.span),
            },
        }
    }
}

/// The view of what a lowering gave, where the value is its own view.
pub open spec fn lowered<T>(r: Result<T, LowerError>) -> Result<T, LowerErrorView> {
    match r {
        Ok(v) => Ok(v),
        Err(e) => Err(e@),
    }
}

/// A reading as a lowering.
pub open spec fn reading<T>(r: Result<T, ReaderErrorView>) -> Result<T, LowerErrorView> {
    match r {
        Ok(v) => Ok(v),
        Err(e) => Err(LowerErrorView::Reader(e)),
    }
}

/// A field that cannot be set in this way.
pub open spec fn semantic<T>(message: Seq<char>) -> Result<T, LowerErrorView> {
    Err(LowerErrorView::Reader(ReaderErrorView::Semantic(message, None)))
}

/// A field that cannot be set in this way.
pub fn semantic_error(message: &'static str) -> (r: LowerError)
    ensures
        r@ == LowerErrorView::Reader(ReaderErrorView::Semantic(message@, None)),
{
    LowerError::Reader(DefReaderError::Semantic(message, None))
}

// ── The environment ──────────────────────────────────────────────────────────

/// A text, as contracts speak of it.
pub type Text = Seq<char>;

/// The fields of a definition, as contracts speak of them.
pub type Fields = Seq<MemberView>;

/// What can only be resolved over all definitions: the index of a definition by
/// its name, and the offset of a string in the table of names. Beside these, what is
/// derived from the fields of a source of opinions.
pub trait LowerEnv {
    /// The index of the definition `name`.
    spec fn index_of(&self, name: Text) -> Option<u32>;

    /// The offset of a string in the table of names.
    spec fn offset_of(&self, string: Text) -> Option<u32>;

    /// The fields of a source of opinions with its binary reactions derived.
    spec fn with_reactions(&self, fields: Fields) -> Fields;

    /// The fields of a source of opinions with its binary opinions derived.
    spec fn with_opinions(&self, fields: Fields) -> Fields;

    fn def_index(&self, name: &str) -> (r: Option<u32>)
        ensures
            r == self.index_of(name@),
    ;

    fn def_string_offset(&self, string: &str) -> (r: Option<u32>)
        ensures
            r == self.offset_of(string@),
    ;

    fn derive_binary_reactions(&self, record: Record) -> (r: Record)
        ensures
            r@ == self.with_reactions(record@),
    ;

    fn derive_binary_opinions(&self, record: Record) -> (r: Record)
        ensures
            r@ == self.with_opinions(record@),
    ;
}

/// An environment in which nothing resolves, and nothing is derived.
pub struct NoEnv;

impl LowerEnv for NoEnv {
    open spec fn index_of(&self, name: Seq<char>) -> Option<u32> {
        None
    }

    open spec fn offset_of(&self, string: Seq<char>) -> Option<u32> {
        None
    }

    open spec fn with_reactions(&self, fields: Fields) -> Fields {
        fields
    }

    open spec fn with_opinions(&self, fields: Fields) -> Fields {
        fields
    }

    fn def_index(&self, name: &str) -> (r: Option<u32>) {
        None
    }

    fn def_string_offset(&self, string: &str) -> (r: Option<u32>) {
        None
    }

    fn derive_binary_reactions(&self, record: Record) -> (r: Record) {
        record
    }

    fn derive_binary_opinions(&self, record: Record) -> (r: Record) {
        record
    }
}

/// What a value is read against.
pub struct Context {
    pub symbols: Symbols,
    pub defs: spec_fn(Seq<char>) -> Option<u32>,
    pub strings: spec_fn(Seq<char>) -> Option<u32>,
    /// What deriving the binary reactions of a source of opinions makes of its fields.
    pub reactions: spec_fn(Fields) -> Fields,
    /// What deriving the binary opinions of a source of opinions makes of its fields.
    pub opinions: spec_fn(Fields) -> Fields,
}

/// The context that an environment and a table of symbols give.
pub open spec fn context<E: LowerEnv>(symbols: Symbols, env: &E) -> Context {
    Context {
        symbols,
        defs: |name: Seq<char>| env.index_of(name),
        strings: |string: Seq<char>| env.offset_of(string),
        reactions: |fields: Fields| env.with_reactions(fields),
        opinions: |fields: Fields| env.with_opinions(fields),
    }
}

// ── References ───────────────────────────────────────────────────────────────

/// The definition called `name`.
pub open spec fn def_ref(cx: Context, name: Seq<char>, span: Span) -> Result<u32, LowerErrorView> {
    match (cx.defs)(name) {
        Some(v) => Ok(v),
        None => Err(LowerErrorView::UnresolvedReference(name, Some(span))),
    }
}

/// A number or a reference: a string names a definition, and so does a bare symbol
/// that has no value. Within a larger expression such a symbol is an error.
pub open spec fn reference(cx: Context, e: Spanned<ExprView>) -> Result<u32, LowerErrorView> {
    match e.value {
        ExprView::String(name) => def_ref(cx, name, e.span),
        _ => match eval::as_u32(cx.symbols, e.value) {
            Ok(v) => Ok(v),
            Err(EvalErrorView::UnknownSymbol(name)) if e.value is Symbol => def_ref(
                cx,
                name,
                e.span,
            ),
            Err(x) => Err(LowerErrorView::Reader(ReaderErrorView::Eval(x, e.span))),
        },
    }
}

/// As `reference`, for a signed field; the empty string is the reference to
/// nothing.
pub open spec fn reference_i32(cx: Context, e: Spanned<ExprView>) -> Result<i32, LowerErrorView> {
    match e.value {
        ExprView::String(name) => if name.len() == 0 {
            Ok(0i32)
        } else {
            signed(def_ref(cx, name, e.span))
        },
        _ => match eval::as_i32(cx.symbols, e.value) {
            Ok(v) => Ok(v),
            Err(EvalErrorView::UnknownSymbol(name)) if e.value is Symbol => signed(
                def_ref(cx, name, e.span),
            ),
            Err(x) => Err(LowerErrorView::Reader(ReaderErrorView::Eval(x, e.span))),
        },
    }
}

/// The same bits as a signed number.
pub open spec fn signed(r: Result<u32, LowerErrorView>) -> Result<i32, LowerErrorView> {
    match r {
        Ok(v) => Ok(v as i32),
        Err(e) => Err(e),
    }
}

/// The offset of a string, or a number. The empty string has the offset -1.
pub open spec fn string_offset(cx: Context, e: Spanned<ExprView>) -> Result<i32, LowerErrorView> {
    match e.value {
        ExprView::String(s) => if s.len() == 0 {
            Ok(-1i32)
        } else {
            match (cx.strings)(s) {
                Some(o) => Ok(o as i32),
                None => Err(LowerErrorView::UnresolvedReference(s, Some(e.span))),
            }
        },
        _ => reading(reader::located(eval::as_i32(cx.symbols, e.value), e.span)),
    }
}

fn find_def<E: LowerEnv>(env: &E, name: &str, span: Span, symbols: Ghost<Symbols>) -> (r: Result<
    u32,
    LowerError,
>)
    ensures
        lowered(r) == def_ref(context(symbols@, env), name@, span),
{
    match env.def_index(name) {
        Some(v) => Ok(v),
        None => Err(LowerError::UnresolvedReference(name.to_owned(), Some(span))),
    }
}

/// A number or a reference to a definition.
pub fn resolve_ref<E: LowerEnv>(eval: &Evaluator, env: &E, expr: &Spanned<Expr>) -> (r: Result<
    u32,
    LowerError,
>)
    ensures
        lowered(r) == reference(context(eval@, env), expr@),
{
    let span = expr.span;
    proof {
        ast::lemma_expr_view(expr.value);
    }
    match &expr.value {
        Expr::String(name) => find_def(env, name.as_str(), span, Ghost(eval@)),
        Expr::Symbol(_) => match eval.u32(expr) {
            Ok(v) => Ok(v),
            Err(EvalError::UnknownSymbol(name)) => find_def(
                env,
                name.as_str(),
                span,
                Ghost(eval@),
            ),
            Err(e) => Err(LowerError::Reader(DefReaderError::Eval(e, span))),
        },
        _ => match eval.u32(expr) {
            Ok(v) => Ok(v),
            Err(e) => Err(LowerError::Reader(DefReaderError::Eval(e, span))),
        },
    }
}

/// A signed number or a reference to a definition.
pub fn resolve_ref_i32<E: LowerEnv>(eval: &Evaluator, env: &E, expr: &Spanned<Expr>) -> (r: Result<
    i32,
    LowerError,
>)
    ensures
        lowered(r) == reference_i32(context(eval@, env), expr@),
{
    let span = expr.span;
    proof {
        ast::lemma_expr_view(expr.value);
    }
    match &expr.value {
        Expr::String(name) => {
            if crate::strings::is_empty(name.as_str()) {
                return Ok(0);
            }
            match find_def(env, name.as_str(), span, Ghost(eval@)) {
                Ok(v) => Ok(v as i32),
                Err(e) => Err(e),
            }
        },
        Expr::Symbol(_) => match eval.i32(expr) {
            Ok(v) => Ok(v),
            Err(EvalError::UnknownSymbol(name)) => match find_def(
                env,
                name.as_str(),
                span,
                Ghost(eval@),
            ) {
                Ok(v) => Ok(v as i32),
                Err(e) => Err(e),
            },
            Err(e) => Err(LowerError::Reader(DefReaderError::Eval(e, span))),
        },
        _ => match eval.i32(expr) {
            Ok(v) => Ok(v),
            Err(e) => Err(LowerError::Reader(DefReaderError::Eval(e, span))),
        },
    }
}

/// The offset of a string, or a number.
pub fn eval_def_string<E: LowerEnv>(eval: &Evaluator, env: &E, expr: &Spanned<Expr>) -> (r: Result<
    i32,
    LowerError,
>)
    ensures
        lowered(r) == string_offset(context(eval@, env), expr@),
{
    proof {
        ast::lemma_expr_view(expr.value);
    }
    match &expr.value {
        Expr::String(s) => {
            if crate::strings::is_empty(s.as_str()) {
                return Ok(-1);
            }
            match env.def_string_offset(s.as_str()) {
                Some(o) => Ok(o as i32),
                None => Err(LowerError::UnresolvedReference(s.clone(), Some(expr.span))),
            }
        },
        _ => match eval.eval_i32(expr) {
            Ok(v) => Ok(v),
            Err(e) => Err(LowerError::Reader(e)),
        },
    }
}

} // verus!
