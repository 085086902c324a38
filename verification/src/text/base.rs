//! Source positions and parse errors.

use vstd::prelude::*;
use vstd::std_specs::cmp::{PartialEqSpec, PartialEqSpecImpl};

use crate::strings::push_text;

verus! {

/// Which source file a [`Span`] came from.
///
/// The parser never interprets it, only propagates it: it is assigned by
/// whoever owns the list of files.
#[derive(Copy, Clone, Debug, PartialEq, Eq, Hash, PartialOrd, Ord, Structural)]
pub struct FileId(pub u32);

impl FileId {
    /// Text parsed outside any list of files, and the spans of synthesized values.
    pub fn anonymous() -> (r: FileId)
        ensures
            r == FileId(u32::MAX),
    {
        FileId(u32::MAX)
    }
}

/// A byte range in a source file (half-open: `start..end`).
///
/// The file is part of the span, because a span outlives the file it was read
/// from: a template's statements are read by every definition that inherits
/// them.
#[derive(Copy, Clone, Debug, PartialEq, Eq, Structural)]
pub struct Span {
    pub file: FileId,
    pub start: usize,
    pub end: usize,
}

impl Span {
    /// For values that correspond to no source text.
    pub fn synthetic() -> (r: Span)
        ensures
            r == Span::nowhere(),
    {
        Span { file: FileId::anonymous(), start: 0, end: 0 }
    }

    /// The empty range of no file.
    pub open spec fn nowhere() -> Span {
        Span { file: FileId(u32::MAX), start: 0, end: 0 }
    }

    pub fn new(file: FileId, start: usize, end: usize) -> (r: Self)
        ensures
            r == (Span { file, start, end }),
    {
        Span { file, start, end }
    }

    /// Whether `other` lies within this range, in the same file.
    ///
    /// Two spans in different files overlap numerically all the time, so
    /// containment without the file means nothing.
    pub open spec fn covers(self, other: Span) -> bool {
        self.file == other.file && self.start <= other.start && other.end <= self.end
    }

    pub fn contains(self, other: Span) -> (r: bool)
        ensures
            r == self.covers(other),
    {
        self.file == other.file && other.start >= self.start && other.end <= self.end
    }
}

/// A value annotated with its source span.
#[derive(Copy, Clone, Debug)]
pub struct Spanned<T> {
    pub span: Span,
    pub value: T,
}

impl<T: View> View for Spanned<T> {
    type V = Spanned<T::V>;

    open spec fn view(&self) -> Spanned<T::V> {
        Spanned { span: self.span, value: self.value@ }
    }
}

/// Two values are equal wherever they stand: the span does not count.
impl<T: PartialEq> PartialEq for Spanned<T> {
    fn eq(&self, other: &Self) -> (r: bool) {
        self.value == other.value
    }
}

impl<T: PartialEq> PartialEqSpecImpl for Spanned<T> {
    open spec fn obeys_eq_spec() -> bool {
        T::obeys_eq_spec()
    }

    open spec fn eq_spec(&self, other: &Self) -> bool {
        self.value.eq_spec(&other.value)
    }
}

/// The views of the elements of a sequence.
pub open spec fn views<T: View>(s: Seq<T>) -> Seq<T::V> {
    Seq::new(s.len(), |i: int| s[i]@)
}

/// The views of a sequence with one element more.
pub broadcast proof fn lemma_views_push<T: View>(s: Seq<T>, x: T)
    ensures
        #[trigger] views(s.push(x)) == views(s).push(x@),
{
    assert(views(s.push(x)) =~= views(s).push(x@));
}

/// The views of no elements.
pub broadcast proof fn lemma_views_empty<T: View>(s: Seq<T>)
    ensures
        s.len() == 0 ==> #[trigger] views(s) == Seq::<T::V>::empty(),
{
    if s.len() == 0 {
        assert(views(s) =~= Seq::<T::V>::empty());
    }
}

pub broadcast group group_views {
    lemma_views_push,
    lemma_views_empty,
}

/// The construct a parse error happened inside ("in enum `ESoundNames`").
///
/// One context, not a stack: the innermost production to see the error wins.
#[derive(Clone, Debug)]
pub struct ParseContext {
    /// What kind of construct: "definition", "enum", "namespace", "#ifdef",
    /// "tagged block".
    pub what: &'static str,
    /// Its name, when it has one.
    pub name: Option<String>,
    /// The name if there is one, else the opening keyword.
    pub span: Span,
}

/// What a [`ParseContext`] says.
pub struct ContextView {
    pub what: Seq<char>,
    pub name: Option<Seq<char>>,
    pub span: Span,
}

/// The characters of an optional string.
pub open spec fn opt_text(s: Option<String>) -> Option<Seq<char>> {
    match s {
        Some(s) => Some(s@),
        None => None,
    }
}

impl View for ParseContext {
    type V = ContextView;

    open spec fn view(&self) -> ContextView {
        ContextView { what: self.what@, name: opt_text(self.name), span: self.span }
    }
}

impl ContextView {
    /// The text of the label that names the construct.
    pub open spec fn label(self) -> Seq<char> {
        match self.name {
            Some(name) => "in "@ + self.what + " `"@ + name + "`"@,
            None => "in this "@ + self.what,
        }
    }
}

/// A copy of an optional string.
pub fn copy_text(s: &Option<String>) -> (r: Option<String>)
    ensures
        opt_text(r) == opt_text(*s),
{
    match s {
        Some(s) => Some(s.clone()),
        None => None,
    }
}

impl ParseContext {
    pub fn new(what: &'static str, name: Option<String>, span: Span) -> (r: Self)
        ensures
            r@ == (ContextView { what: what@, name: opt_text(name), span }),
    {
        ParseContext { what, name, span }
    }

    /// The secondary-label text: "in enum `ESoundNames`" / "in this enum".
    pub fn label(&self) -> (r: String)
        ensures
            r@ == self@.label(),
    {
        let mut out = String::new();
        match &self.name {
            Some(name) => {
                push_text(&mut out, "in ");
                push_text(&mut out, self.what);
                push_text(&mut out, " `");
                push_text(&mut out, name.as_str());
                push_text(&mut out, "`");
                assert(out@ =~= self@.label());
            },
            None => {
                push_text(&mut out, "in this ");
                push_text(&mut out, self.what);
                assert(out@ =~= self@.label());
            },
        }
        out
    }
}

/// A parse error: what went wrong, where, and inside which construct.
#[derive(Debug)]
pub struct ParseError<InnerError> {
    /// The source range the error is about, normally the offending token.
    pub span: Span,
    pub context: Option<Box<ParseContext>>,
    pub inner: InnerError,
}

/// What a [`ParseError`] says.
pub struct ErrorView<E> {
    pub span: Span,
    pub context: Option<ContextView>,
    pub inner: E,
}

impl<T: View> View for ParseError<T> {
    type V = ErrorView<T::V>;

    open spec fn view(&self) -> ErrorView<T::V> {
        ErrorView {
            span: self.span,
            context: match self.context {
                Some(c) => Some((*c)@),
                None => None,
            },
            inner: self.inner@,
        }
    }
}

impl<E> ErrorView<E> {
    /// The error with `context` attached, unless an inner construct already
    /// attached its own.
    pub open spec fn within(self, context: ContextView) -> ErrorView<E> {
        match self.context {
            Some(_) => self,
            None => ErrorView { span: self.span, context: Some(context), inner: self.inner },
        }
    }
}

impl<T: View> ParseError<T> {
    pub fn new(span: Span, inner: T) -> (r: Self)
        ensures
            r@ == (ErrorView { span, context: None, inner: inner@ }),
    {
        ParseError { span, context: None, inner }
    }

    /// Attach the enclosing construct. Innermost wins: an outer production
    /// never overwrites context an inner one already set.
    pub fn within(self, context: &ParseContext) -> (r: Self)
        ensures
            r@ == self@.within(context@),
    {
        match self.context {
            Some(c) => ParseError { span: self.span, context: Some(c), inner: self.inner },
            None => {
                let copy = ParseContext {
                    what: context.what,
                    name: copy_text(&context.name),
                    span: context.span,
                };
                ParseError { span: self.span, context: Some(Box::new(copy)), inner: self.inner }
            },
        }
    }
}

/// Once a context is attached, no enclosing construct changes the error.
pub proof fn innermost_context_wins<E>(error: ErrorView<E>, inner: ContextView, outer: ContextView)
    ensures
        error.within(inner).within(outer) == error.within(inner),
{
}

} // verus!
