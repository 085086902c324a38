//! The grammar, as functions from a token sequence and a position to what
//! stands there and where it ends.
//!
//! A production either gives a tree with the position behind it, or the error
//! that reading it runs into. Reading beyond the last token sees the end of the
//! file.

use vstd::prelude::*;

use crate::strings;
use crate::text::ast::{
    CallView, DefineView, DefinitionView, EnumExprView, EnumView, ExprView, ItemView, SegmentView,
    SourceView, StatementView, VariantView,
};
use crate::text::base::{ContextView, ErrorView, FileId, Span, Spanned};
use crate::text::lexer;
use crate::text::lexer::{TextErrorView, TokenKind, TokenView};

verus! {

/// A parse error's view.
pub type TextError = ErrorView<TextErrorView>;

/// What a production gives: a tree and the position behind it, or an error.
pub type Parsed<V> = Result<(V, int), TextError>;

// ── Reading tokens ───────────────────────────────────────────────────────────

/// The token at position `p`.
pub open spec fn at(t: Seq<TokenView>, p: int) -> TokenView {
    if 0 <= p < t.len() {
        t[p]
    } else {
        TokenView { kind: TokenKind::Eof, span: Span::nowhere(), source: Seq::empty() }
    }
}

pub open spec fn kind(t: Seq<TokenView>, p: int) -> TokenKind {
    at(t, p).kind
}

/// The file that the tokens are from.
pub open spec fn file(t: Seq<TokenView>) -> FileId {
    at(t, 0).span.file
}

/// From the start of the token at `p` to the end of the one before `q`.
pub open spec fn span_between(t: Seq<TokenView>, p: int, q: int) -> Span {
    Span { file: file(t), start: at(t, p).span.start, end: at(t, q - 1).span.end }
}

/// How many tokens there are from `p` on.
pub open spec fn left(t: Seq<TokenView>, p: int) -> nat {
    if p < t.len() {
        (t.len() - p) as nat
    } else {
        0
    }
}

/// The position `q`, which is behind `p`: no production that is repeated is empty.
pub open spec fn past(p: int, q: int) -> int {
    if q > p {
        q
    } else {
        p + 1
    }
}

/// The error `inner` at the token at `p`.
pub open spec fn fail(t: Seq<TokenView>, p: int, inner: TextErrorView) -> TextError {
    ErrorView { span: at(t, p).span, context: None, inner }
}

/// The error of finding the token at `p` where `expected` should be.
pub open spec fn unexpected(t: Seq<TokenView>, p: int, expected: Seq<char>) -> TextError {
    fail(t, p, TextErrorView::UnexpectedToken { expected, found: kind(t, p) })
}

pub open spec fn expect(t: Seq<TokenView>, p: int, k: TokenKind) -> Parsed<TokenView> {
    if kind(t, p) == k {
        Ok((at(t, p), p + 1))
    } else {
        Err(unexpected(t, p, k.description()))
    }
}

pub open spec fn ident(t: Seq<TokenView>, p: int, what: Seq<char>) -> Parsed<Seq<char>> {
    if kind(t, p) == TokenKind::Ident {
        Ok((at(t, p).source, p + 1))
    } else {
        Err(unexpected(t, p, what))
    }
}

pub open spec fn ident_spanned(t: Seq<TokenView>, p: int, what: Seq<char>) -> Parsed<
    Spanned<Seq<char>>,
> {
    if kind(t, p) == TokenKind::Ident {
        Ok((Spanned { span: at(t, p).span, value: at(t, p).source }, p + 1))
    } else {
        Err(unexpected(t, p, what))
    }
}

/// The position behind an optional token of kind `k`.
pub open spec fn optional(t: Seq<TokenView>, p: int, k: TokenKind) -> int {
    if kind(t, p) == k {
        p + 1
    } else {
        p
    }
}

/// Whether the token at `p` is the word `word`.
pub open spec fn word_at(t: Seq<TokenView>, p: int, word: Seq<char>) -> bool {
    kind(t, p) == TokenKind::Ident && at(t, p).source == word
}

// ── Expressions ──────────────────────────────────────────────────────────────

pub open spec fn expr(t: Seq<TokenView>, p: int) -> Parsed<Spanned<ExprView>>
    decreases left(t, p), 5nat,
{
    bitor(t, p)
}

/// `sum ('|' sum)*`; one term alone stands for itself.
pub open spec fn bitor(t: Seq<TokenView>, p: int) -> Parsed<Spanned<ExprView>>
    decreases left(t, p), 4nat,
{
    match sum(t, p) {
        Err(e) => Err(e),
        Ok((first, q)) => match bitor_rest(t, past(p, q), seq![first]) {
            Err(e) => Err(e),
            Ok((terms, r)) => if terms.len() == 1 {
                Ok((terms[0], r))
            } else {
                Ok((Spanned { span: span_between(t, p, r), value: ExprView::BitOr(terms) }, r))
            },
        },
    }
}

pub open spec fn bitor_rest(t: Seq<TokenView>, p: int, acc: Seq<Spanned<ExprView>>) -> Parsed<
    Seq<Spanned<ExprView>>,
>
    decreases left(t, p), 3nat,
{
    if kind(t, p) == TokenKind::Pipe {
        match sum(t, p + 1) {
            Err(e) => Err(e),
            Ok((term, q)) => bitor_rest(t, past(p, q), acc.push(term)),
        }
    } else {
        Ok((acc, p))
    }
}

/// `leaf ('+' leaf)*`; one term alone stands for itself.
pub open spec fn sum(t: Seq<TokenView>, p: int) -> Parsed<Spanned<ExprView>>
    decreases left(t, p), 2nat,
{
    match leaf(t, p) {
        Err(e) => Err(e),
        Ok((first, q)) => match sum_rest(t, past(p, q), seq![first]) {
            Err(e) => Err(e),
            Ok((terms, r)) => if terms.len() == 1 {
                Ok((terms[0], r))
            } else {
                Ok((Spanned { span: span_between(t, p, r), value: ExprView::Add(terms) }, r))
            },
        },
    }
}

pub open spec fn sum_rest(t: Seq<TokenView>, p: int, acc: Seq<Spanned<ExprView>>) -> Parsed<
    Seq<Spanned<ExprView>>,
>
    decreases left(t, p), 1nat,
{
    if kind(t, p) == TokenKind::Plus {
        match leaf(t, p + 1) {
            Err(e) => Err(e),
            Ok((term, q)) => sum_rest(t, past(p, q), acc.push(term)),
        }
    } else {
        Ok((acc, p))
    }
}

/// The text of a string literal without its quotes.
pub open spec fn unquoted(source: Seq<char>) -> Seq<char> {
    source.subrange(1, source.len() - 1)
}

/// A literal, a symbol, or a constructor `name(arg, …)`.
pub open spec fn leaf(t: Seq<TokenView>, p: int) -> Parsed<Spanned<ExprView>>
    decreases left(t, p), 0nat,
{
    let span = at(t, p).span;
    let source = at(t, p).source;
    if kind(t, p) == TokenKind::Str {
        Ok((Spanned { span, value: ExprView::String(unquoted(source)) }, p + 1))
    } else if kind(t, p) == TokenKind::Number {
        Ok((Spanned { span, value: ExprView::Number(source) }, p + 1))
    } else if kind(t, p) == TokenKind::Ident {
        if source == "TRUE"@ || source == "BTRUE"@ {
            Ok((Spanned { span, value: ExprView::Bool(true) }, p + 1))
        } else if source == "FALSE"@ || source == "BFALSE"@ {
            Ok((Spanned { span, value: ExprView::Bool(false) }, p + 1))
        } else if kind(t, p + 1) == TokenKind::LParen {
            match call(t, p + 1, source) {
                Err(e) => Err(e),
                Ok((c, q)) => Ok(
                    (Spanned { span: span_between(t, p, q), value: ExprView::Constructor(c) }, q),
                ),
            }
        } else {
            Ok((Spanned { span, value: ExprView::Symbol(source) }, p + 1))
        }
    } else {
        Err(unexpected(t, p, "expression"@))
    }
}

/// An argument list in parentheses, called `name`.
pub open spec fn call(t: Seq<TokenView>, p: int, name: Seq<char>) -> Parsed<CallView>
    decreases left(t, p), 8nat,
{
    match expect(t, p, TokenKind::LParen) {
        Err(e) => Err(e),
        Ok(_) => match arguments(t, p + 1) {
            Err(e) => Err(e),
            Ok((arguments, q)) => match expect(t, q, TokenKind::RParen) {
                Err(e) => Err(e),
                Ok((_, r)) => Ok((CallView { name, arguments }, r)),
            },
        },
    }
}

/// Expressions separated by commas, possibly none.
pub open spec fn arguments(t: Seq<TokenView>, p: int) -> Parsed<Seq<Spanned<ExprView>>>
    decreases left(t, p), 7nat,
{
    if kind(t, p) == TokenKind::RParen {
        Ok((Seq::empty(), p))
    } else {
        arguments_from(t, p, Seq::empty())
    }
}

pub open spec fn arguments_from(t: Seq<TokenView>, p: int, acc: Seq<Spanned<ExprView>>) -> Parsed<
    Seq<Spanned<ExprView>>,
>
    decreases left(t, p), 6nat,
{
    match expr(t, p) {
        Err(e) => Err(e),
        Ok((arg, q)) => if kind(t, q) == TokenKind::Comma && p < t.len() {
            arguments_from(t, past(p, q + 1), acc.push(arg))
        } else {
            Ok((acc.push(arg), q))
        },
    }
}

// ── Statements ───────────────────────────────────────────────────────────────

/// `name ('.' name | '[' expr ']')*`.
pub open spec fn path(t: Seq<TokenView>, p: int) -> Parsed<Seq<SegmentView>> {
    match ident(t, p, "field name"@) {
        Err(e) => Err(e),
        Ok((name, q)) => path_rest(t, q, seq![SegmentView::Field(name)]),
    }
}

pub open spec fn path_rest(t: Seq<TokenView>, p: int, acc: Seq<SegmentView>) -> Parsed<
    Seq<SegmentView>,
>
    decreases left(t, p),
{
    if kind(t, p) == TokenKind::Dot {
        match ident(t, p + 1, "field name"@) {
            Err(e) => Err(e),
            Ok((name, q)) => path_rest(t, q, acc.push(SegmentView::Field(name))),
        }
    } else if kind(t, p) == TokenKind::LBracket {
        match expr(t, p + 1) {
            Err(e) => Err(e),
            Ok((index, q)) => match expect(t, q, TokenKind::RBracket) {
                Err(e) => Err(e),
                Ok((_, r)) => path_rest(t, past(p, r), acc.push(SegmentView::Index(index))),
            },
        }
    } else {
        Ok((acc, p))
    }
}

/// Whether a token of kind `k` can never stand inside a definition's body.
pub open spec fn ends_body(k: TokenKind) -> bool {
    ||| k == TokenKind::Definition
    ||| k == TokenKind::DefinitionTemplate
    ||| k == TokenKind::Define
    ||| k == TokenKind::Ifdef
    ||| k == TokenKind::Ifndef
    ||| k == TokenKind::Else
    ||| k == TokenKind::Endif
    ||| k == TokenKind::Pragma
    ||| k == TokenKind::Namespace
    ||| k == TokenKind::Enum
    ||| k == TokenKind::Eof
}

/// A tagged block, a method call `path(args)` or a field assignment `path expr`;
/// the last two may end in `;`.
pub open spec fn statement(t: Seq<TokenView>, p: int) -> Parsed<Spanned<StatementView>>
    decreases left(t, p), 2nat,
{
    if kind(t, p) == TokenKind::Lt && kind(t, p + 1) != TokenKind::Backslash {
        match tagged(t, p) {
            Err(e) => Err(e),
            Ok((value, q)) => Ok((Spanned { span: span_between(t, p, q), value }, q)),
        }
    } else {
        match path(t, p) {
            Err(e) => Err(e),
            Ok((segments, q)) => if kind(t, q) == TokenKind::LParen {
                match segments.last() {
                    SegmentView::Field(method) => match call(t, q, method) {
                        Err(e) => Err(e),
                        Ok((call, r)) => {
                            let end = optional(t, r, TokenKind::Semi);
                            Ok(
                                (
                                    Spanned {
                                        span: span_between(t, p, end),
                                        value: StatementView::MethodCall {
                                            object: segments.drop_last(),
                                            call,
                                        },
                                    },
                                    end,
                                ),
                            )
                        },
                    },
                    SegmentView::Index(_) => Err(fail(t, q, TextErrorView::MethodNameIsIndex)),
                }
            } else {
                match expr(t, q) {
                    Err(e) => Err(e),
                    Ok((value, r)) => {
                        let end = optional(t, r, TokenKind::Semi);
                        Ok(
                            (
                                Spanned {
                                    span: span_between(t, p, end),
                                    value: StatementView::Field { path: segments, expr: value },
                                },
                                end,
                            ),
                        )
                    },
                }
            },
        }
    }
}

/// `<Tag> statement* <\Tag>`.
pub open spec fn tagged(t: Seq<TokenView>, p: int) -> Parsed<StatementView>
    decreases left(t, p), 1nat,
{
    match expect(t, p, TokenKind::Lt) {
        Err(e) => Err(e),
        Ok(_) => match ident(t, p + 1, "tag name"@) {
            Err(e) => Err(e),
            Ok((tag, _)) => match expect(t, p + 2, TokenKind::Gt) {
                Err(e) => Err(e),
                Ok(_) => match tagged_body(
                    t,
                    p + 3,
                    tag,
                    ContextView {
                        what: "tagged block"@,
                        name: Some(tag),
                        span: at(t, p + 1).span,
                    },
                    Seq::empty(),
                ) {
                    Err(e) => Err(e),
                    Ok((body, q)) => Ok((StatementView::TaggedBlock { tag, body }, q)),
                },
            },
        },
    }
}

/// The closing tag of a block, as an error message names it.
pub open spec fn closer(tag: Seq<char>) -> Seq<char> {
    "<\\"@ + tag + ">"@
}

pub open spec fn tagged_body(
    t: Seq<TokenView>,
    p: int,
    tag: Seq<char>,
    ctx: ContextView,
    acc: Seq<Spanned<StatementView>>,
) -> Parsed<Seq<Spanned<StatementView>>>
    decreases left(t, p), 3nat,
{
    if kind(t, p) == TokenKind::Lt && kind(t, p + 1) == TokenKind::Backslash {
        match ident(t, p + 2, "closing tag name"@) {
            Err(e) => Err(e),
            Ok((closed, _)) => match expect(t, p + 3, TokenKind::Gt) {
                Err(e) => Err(e),
                Ok((_, q)) => if closed != tag {
                    Err(
                        ErrorView {
                            span: span_between(t, p, q),
                            context: None,
                            inner: TextErrorView::MismatchedTag { opened: tag, closed },
                        },
                    )
                } else {
                    Ok((acc, q))
                },
            },
        }
    } else if ends_body(kind(t, p)) || kind(t, p) == TokenKind::EndDefinition {
        Err(unexpected(t, p, closer(tag)).within(ctx))
    } else {
        match statement(t, p) {
            Err(e) => Err(e.within(ctx)),
            Ok((s, q)) => tagged_body(t, past(p, q), tag, ctx, acc.push(s)),
        }
    }
}

// ── Definitions ──────────────────────────────────────────────────────────────

/// `#definition TYPE NAME [specialises PARENT] statement* #end_definition [;]`.
pub open spec fn definition(t: Seq<TokenView>, p: int) -> Parsed<Spanned<DefinitionView>> {
    if kind(t, p) != TokenKind::Definition && kind(t, p) != TokenKind::DefinitionTemplate {
        Err(unexpected(t, p, "#definition or #definition_template"@))
    } else {
        match ident(t, p + 1, "definition type"@) {
            Err(e) => Err(e),
            Ok((def_type, _)) => match ident(t, p + 2, "definition name"@) {
                Err(e) => Err(e),
                Ok((name, _)) => {
                    let ctx = ContextView {
                        what: "definition"@,
                        name: Some(name),
                        span: at(t, p + 2).span,
                    };
                    match parent(t, p + 3) {
                        Err(e) => Err(e),
                        Ok((parent, q)) => match body(t, q, ctx, Seq::empty()) {
                            Err(e) => Err(e),
                            Ok((body, r)) => Ok(
                                (
                                    Spanned {
                                        span: span_between(t, p, r),
                                        value: DefinitionView {
                                            is_template: kind(t, p)
                                                == TokenKind::DefinitionTemplate,
                                            def_type,
                                            name,
                                            specializes: match parent {
                                                Some((n, _)) => Some(n),
                                                None => None,
                                            },
                                            specializes_span: match parent {
                                                Some((_, s)) => Some(s),
                                                None => None,
                                            },
                                            body,
                                        },
                                    },
                                    r,
                                ),
                            ),
                        },
                    }
                },
            },
        }
    }
}

/// The parent that a definition names, and the span of the clause that names it.
pub open spec fn parent(t: Seq<TokenView>, p: int) -> Parsed<Option<(Seq<char>, Span)>> {
    if word_at(t, p, "specialises"@) {
        match ident(t, p + 1, "specialised parent"@) {
            Err(e) => Err(e),
            Ok((name, q)) => Ok((Some((name, span_between(t, p, q))), q)),
        }
    } else {
        Ok((None, p))
    }
}

pub open spec fn body(
    t: Seq<TokenView>,
    p: int,
    ctx: ContextView,
    acc: Seq<Spanned<StatementView>>,
) -> Parsed<Seq<Spanned<StatementView>>>
    decreases left(t, p),
{
    if kind(t, p) == TokenKind::EndDefinition {
        Ok((acc, optional(t, p + 1, TokenKind::Semi)))
    } else if ends_body(kind(t, p)) {
        Err(fail(t, p, TextErrorView::MissingEndDefinition).within(ctx))
    } else {
        match statement(t, p) {
            Err(e) => Err(e.within(ctx)),
            Ok((s, q)) => body(t, past(p, q), ctx, acc.push(s)),
        }
    }
}

// ── Declarations ─────────────────────────────────────────────────────────────

/// The number token at `p` as an integer.
pub open spec fn integer(t: Seq<TokenView>, p: int) -> Parsed<i64> {
    match strings::i64_text(at(t, p).source) {
        Some(n) => Ok((n, p + 1)),
        None => Err(fail(t, p, TextErrorView::InvalidNumber)),
    }
}

pub open spec fn enum_leaf(t: Seq<TokenView>, p: int) -> Parsed<EnumExprView> {
    let span = at(t, p).span;
    if kind(t, p) == TokenKind::Number {
        match integer(t, p) {
            Err(e) => Err(e),
            Ok((n, q)) => Ok((EnumExprView::Int(Spanned { span, value: n }), q)),
        }
    } else if kind(t, p) == TokenKind::Ident {
        Ok((EnumExprView::Ident(Spanned { span, value: at(t, p).source }), p + 1))
    } else {
        Err(unexpected(t, p, "number or identifier"@))
    }
}

/// `leaf ('<<' leaf)*`; one term alone stands for itself.
pub open spec fn enum_shift(t: Seq<TokenView>, p: int) -> Parsed<EnumExprView> {
    match enum_leaf(t, p) {
        Err(e) => Err(e),
        Ok((first, q)) => match enum_shift_rest(t, q, seq![first]) {
            Err(e) => Err(e),
            Ok((terms, r)) => Ok(
                (
                    if terms.len() == 1 {
                        terms[0]
                    } else {
                        EnumExprView::Shift(terms)
                    },
                    r,
                ),
            ),
        },
    }
}

pub open spec fn enum_shift_rest(t: Seq<TokenView>, p: int, acc: Seq<EnumExprView>) -> Parsed<
    Seq<EnumExprView>,
>
    decreases left(t, p),
{
    if kind(t, p) == TokenKind::Shl {
        match enum_leaf(t, p + 1) {
            Err(e) => Err(e),
            Ok((term, q)) => enum_shift_rest(t, past(p, q), acc.push(term)),
        }
    } else {
        Ok((acc, p))
    }
}

/// `shift ('|' shift)*`; one term alone stands for itself.
pub open spec fn enum_expr(t: Seq<TokenView>, p: int) -> Parsed<EnumExprView> {
    match enum_shift(t, p) {
        Err(e) => Err(e),
        Ok((first, q)) => match enum_bitor_rest(t, q, seq![first]) {
            Err(e) => Err(e),
            Ok((terms, r)) => Ok(
                (
                    if terms.len() == 1 {
                        terms[0]
                    } else {
                        EnumExprView::BitOr(terms)
                    },
                    r,
                ),
            ),
        },
    }
}

pub open spec fn enum_bitor_rest(t: Seq<TokenView>, p: int, acc: Seq<EnumExprView>) -> Parsed<
    Seq<EnumExprView>,
>
    decreases left(t, p),
{
    if kind(t, p) == TokenKind::Pipe {
        match enum_shift(t, p + 1) {
            Err(e) => Err(e),
            Ok((term, q)) => enum_bitor_rest(t, past(p, q), acc.push(term)),
        }
    } else {
        Ok((acc, p))
    }
}

/// `name ['=' value]`.
pub open spec fn enum_variant(t: Seq<TokenView>, p: int) -> Parsed<VariantView> {
    match ident_spanned(t, p, "identifier"@) {
        Err(e) => Err(e),
        Ok((name, q)) => if kind(t, q) == TokenKind::Eq {
            match enum_expr(t, q + 1) {
                Err(e) => Err(e),
                Ok((value, r)) => Ok((VariantView { name, value: Some(value) }, r)),
            }
        } else {
            Ok((VariantView { name, value: None }, q))
        },
    }
}

/// What may follow a variant: once it has a value, only a separator.
pub open spec fn after_variant(has_value: bool) -> Seq<char> {
    if has_value {
        "`,` or `}`"@
    } else {
        "`=`, `,` or `}`"@
    }
}

pub open spec fn enum_variants(t: Seq<TokenView>, p: int, acc: Seq<VariantView>) -> Parsed<
    Seq<VariantView>,
>
    decreases left(t, p),
{
    if kind(t, p) == TokenKind::Eof {
        Err(fail(t, p, TextErrorView::UnterminatedEnum))
    } else if kind(t, p) == TokenKind::RBrace {
        Ok((acc, p))
    } else {
        match enum_variant(t, p) {
            Err(e) => Err(e),
            Ok((v, q)) => if kind(t, q) == TokenKind::Comma {
                enum_variants(t, past(p, q + 1), acc.push(v))
            } else if kind(t, q) == TokenKind::RBrace {
                Ok((acc.push(v), q))
            } else {
                Err(unexpected(t, q, after_variant(v.value is Some)))
            },
        }
    }
}

/// What follows `enum`: `[name] { variants } [;]`.
pub open spec fn enum_body(t: Seq<TokenView>, p: int) -> Parsed<EnumView> {
    let name = if kind(t, p) == TokenKind::Ident {
        Some(Spanned { span: at(t, p).span, value: at(t, p).source })
    } else {
        None
    };
    let q = optional(t, p, TokenKind::Ident);
    let ctx = ContextView {
        what: "enum"@,
        name: match name {
            Some(n) => Some(n.value),
            None => None,
        },
        span: match name {
            Some(n) => n.span,
            None => at(t, p - 1).span,
        },
    };
    match expect(t, q, TokenKind::LBrace) {
        Err(e) => Err(e.within(ctx)),
        Ok(_) => match enum_variants(t, q + 1, Seq::empty()) {
            Err(e) => Err(e.within(ctx)),
            Ok((variants, r)) => match expect(t, r, TokenKind::RBrace) {
                Err(e) => Err(e.within(ctx)),
                Ok((_, s)) => Ok((EnumView { name, variants }, optional(t, s, TokenKind::Semi))),
            },
        },
    }
}

/// What follows `#define`: `name [number]`.
pub open spec fn define_body(t: Seq<TokenView>, p: int) -> Parsed<DefineView> {
    match ident_spanned(t, p, "identifier"@) {
        Err(e) => Err(e),
        Ok((name, q)) => if kind(t, q) == TokenKind::Number {
            match integer(t, q) {
                Err(e) => Err(e),
                Ok((n, r)) => Ok((DefineView { name, value: Some(n) }, r)),
            }
        } else {
            Ok((DefineView { name, value: None }, q))
        },
    }
}

/// Whether a token of kind `k` starts a declaration.
pub open spec fn starts_declaration(k: TokenKind) -> bool {
    ||| k == TokenKind::Enum
    ||| k == TokenKind::Define
    ||| k == TokenKind::Namespace
    ||| k == TokenKind::Ifdef
    ||| k == TokenKind::Ifndef
    ||| k == TokenKind::Pragma
}

pub open spec fn declaration(t: Seq<TokenView>, p: int) -> Parsed<ItemView>
    decreases left(t, p), 0nat,
{
    if kind(t, p) == TokenKind::Enum {
        match enum_body(t, p + 1) {
            Err(e) => Err(e),
            Ok((e, q)) => Ok((ItemView::Enum(e), q)),
        }
    } else if kind(t, p) == TokenKind::Define {
        match define_body(t, p + 1) {
            Err(e) => Err(e),
            Ok((d, q)) => Ok((ItemView::Define(d), q)),
        }
    } else if kind(t, p) == TokenKind::Namespace {
        namespace_body(t, p + 1)
    } else if kind(t, p) == TokenKind::Ifdef || kind(t, p) == TokenKind::Ifndef {
        conditional_body(t, p + 1, kind(t, p) == TokenKind::Ifndef)
    } else if kind(t, p) == TokenKind::Pragma {
        Ok(
            (
                ItemView::PragmaOnce(at(t, p).span),
                if word_at(t, p + 1, "once"@) {
                    p + 2
                } else {
                    p + 1
                },
            ),
        )
    } else {
        Err(fail(t, p, TextErrorView::UnknownItem))
    }
}

/// What follows `namespace`: `name { declaration* } [;]`.
pub open spec fn namespace_body(t: Seq<TokenView>, p: int) -> Parsed<ItemView>
    decreases left(t, p), 2nat,
{
    match ident(t, p, "identifier"@) {
        Err(e) => Err(e),
        Ok((name, _)) => {
            let ctx = ContextView {
                what: "namespace"@,
                name: Some(name),
                span: at(t, p).span,
            };
            match expect(t, p + 1, TokenKind::LBrace) {
                Err(e) => Err(e.within(ctx)),
                Ok(_) => match namespace_items(t, p + 2, ctx, Seq::empty()) {
                    Err(e) => Err(e),
                    Ok((items, q)) => match expect(t, q, TokenKind::RBrace) {
                        Err(e) => Err(e.within(ctx)),
                        Ok((_, r)) => Ok(
                            (
                                ItemView::Namespace { name, items },
                                optional(t, r, TokenKind::Semi),
                            ),
                        ),
                    },
                },
            }
        },
    }
}

pub open spec fn namespace_items(
    t: Seq<TokenView>,
    p: int,
    ctx: ContextView,
    acc: Seq<ItemView>,
) -> Parsed<Seq<ItemView>>
    decreases left(t, p), 1nat,
{
    if kind(t, p) == TokenKind::Eof {
        Err(fail(t, p, TextErrorView::UnterminatedNamespace).within(ctx))
    } else if kind(t, p) == TokenKind::RBrace {
        Ok((acc, p))
    } else {
        match declaration(t, p) {
            Err(e) => Err(e.within(ctx)),
            Ok((item, q)) => namespace_items(t, past(p, q), ctx, acc.push(item)),
        }
    }
}

/// What follows `#ifdef` or `#ifndef`:
/// `name declaration* [#else declaration*] #endif [name]`.
pub open spec fn conditional_body(t: Seq<TokenView>, p: int, inverted: bool) -> Parsed<ItemView>
    decreases left(t, p), 2nat,
{
    match ident(t, p, "identifier"@) {
        Err(e) => Err(e),
        Ok((condition, _)) => {
            let ctx = ContextView {
                what: if inverted {
                    "#ifndef"@
                } else {
                    "#ifdef"@
                },
                name: Some(condition),
                span: at(t, p).span,
            };
            match branch(t, p + 1, ctx, true, Seq::empty()) {
                Err(e) => Err(e),
                Ok((if_branch, q)) => if kind(t, q) == TokenKind::Else {
                    match branch(t, past(p, q + 1), ctx, false, Seq::empty()) {
                        Err(e) => Err(e),
                        Ok((else_branch, r)) => conditional_end(
                            t,
                            r,
                            ctx,
                            ItemView::Conditional {
                                condition,
                                if_branch,
                                else_branch: Some(else_branch),
                                inverted,
                            },
                        ),
                    }
                } else {
                    conditional_end(
                        t,
                        q,
                        ctx,
                        ItemView::Conditional { condition, if_branch, else_branch: None, inverted },
                    )
                },
            }
        },
    }
}

/// `#endif [name]`, closing `item`.
pub open spec fn conditional_end(
    t: Seq<TokenView>,
    p: int,
    ctx: ContextView,
    item: ItemView,
) -> Parsed<ItemView> {
    match expect(t, p, TokenKind::Endif) {
        Err(e) => Err(e.within(ctx)),
        Ok((_, q)) => Ok((item, optional(t, q, TokenKind::Ident))),
    }
}

/// The declarations up to `#endif`, or up to `#else` where `stop_at_else`.
pub open spec fn branch(
    t: Seq<TokenView>,
    p: int,
    ctx: ContextView,
    stop_at_else: bool,
    acc: Seq<ItemView>,
) -> Parsed<Seq<ItemView>>
    decreases left(t, p), 1nat,
{
    if kind(t, p) == TokenKind::Eof {
        Err(fail(t, p, TextErrorView::UnterminatedIfDef).within(ctx))
    } else if kind(t, p) == TokenKind::Endif || (stop_at_else && kind(t, p) == TokenKind::Else) {
        Ok((acc, p))
    } else {
        match declaration(t, p) {
            Err(e) => Err(e.within(ctx)),
            Ok((item, q)) => branch(t, past(p, q), ctx, stop_at_else, acc.push(item)),
        }
    }
}

// ── Files ────────────────────────────────────────────────────────────────────

/// Whether a token of kind `k` starts an item, or is the end of the file.
pub open spec fn starts_item(k: TokenKind) -> bool {
    k == TokenKind::Eof || k == TokenKind::Definition || k == TokenKind::DefinitionTemplate
        || starts_declaration(k)
}

/// The end of the run of tokens from `p` on that start no item.
pub open spec fn junk_end(t: Seq<TokenView>, p: int) -> int
    decreases left(t, p),
{
    if starts_item(kind(t, p)) {
        p
    } else {
        junk_end(t, p + 1)
    }
}

/// The items of a file from `p` on, behind those already read. Text that starts
/// no item is recorded as ignored, one span per run, and is never an error.
pub open spec fn items(
    t: Seq<TokenView>,
    p: int,
    acc: Seq<ItemView>,
    ignored: Seq<Span>,
) -> Result<SourceView, TextError>
    decreases left(t, p),
{
    if kind(t, p) == TokenKind::Eof {
        Ok(SourceView { items: acc, ignored })
    } else if kind(t, p) == TokenKind::Definition || kind(t, p) == TokenKind::DefinitionTemplate {
        match definition(t, p) {
            Err(e) => Err(e),
            Ok((d, q)) => items(t, past(p, q), acc.push(ItemView::Definition(d)), ignored),
        }
    } else if starts_declaration(kind(t, p)) {
        match declaration(t, p) {
            Err(e) => Err(e),
            Ok((item, q)) => items(t, past(p, q), acc.push(item), ignored),
        }
    } else {
        let q = junk_end(t, p + 1);
        items(t, past(p, q), acc, ignored.push(span_between(t, p, q)))
    }
}

/// The error of a text that cannot be split into tokens.
pub open spec fn lexical(e: lexer::LexError) -> TextError {
    ErrorView { span: e.span, context: None, inner: e.kind.as_parse_error() }
}

/// What parsing a text gives.
pub open spec fn source(input: Seq<char>, file: FileId) -> Result<SourceView, TextError> {
    match lexer::lexed(input, file) {
        Err(e) => Err(lexical(e)),
        Ok(t) => items(t, 0, Seq::empty(), Seq::empty()),
    }
}

/// What parsing a text as one expression gives. What follows the expression is
/// not looked at.
pub open spec fn expression(input: Seq<char>) -> Result<Spanned<ExprView>, TextError> {
    match lexer::lexed(input, FileId(u32::MAX)) {
        Err(e) => Err(lexical(e)),
        Ok(t) => match expr(t, 0) {
            Err(e) => Err(e),
            Ok((value, _)) => Ok(value),
        },
    }
}

// ── Laws ─────────────────────────────────────────────────────────────────────

/// Whether the spans of a definition and of its statements are in a file.
pub open spec fn definition_in(d: Spanned<DefinitionView>, file: FileId) -> bool {
    &&& d.span.file == file
    &&& forall|i: int|
        0 <= i < d.value.body.len() ==> (#[trigger] d.value.body[i]).span.file == file
}

/// Whether the spans of an item are in a file.
pub open spec fn item_in(item: ItemView, file: FileId) -> bool {
    match item {
        ItemView::Definition(d) => definition_in(d, file),
        ItemView::PragmaOnce(span) => span.file == file,
        _ => true,
    }
}

/// Whether the spans of what was parsed are in a file.
pub open spec fn source_in(s: SourceView, file: FileId) -> bool {
    &&& forall|i: int| 0 <= i < s.items.len() ==> item_in(#[trigger] s.items[i], file)
    &&& forall|i: int| 0 <= i < s.ignored.len() ==> (#[trigger] s.ignored[i]).file == file
}

proof fn lemma_statement_in(t: Seq<TokenView>, p: int)
    ensures
        match statement(t, p) {
            Ok((s, _)) => s.span.file == file(t),
            Err(_) => true,
        },
{
}

proof fn lemma_body_in(
    t: Seq<TokenView>,
    p: int,
    ctx: ContextView,
    acc: Seq<Spanned<StatementView>>,
)
    requires
        forall|i: int| 0 <= i < acc.len() ==> (#[trigger] acc[i]).span.file == file(t),
    ensures
        match body(t, p, ctx, acc) {
            Ok((v, _)) => forall|i: int|
                0 <= i < v.len() ==> (#[trigger] v[i]).span.file == file(t),
            Err(_) => true,
        },
    decreases left(t, p),
{
    if kind(t, p) != TokenKind::EndDefinition && !ends_body(kind(t, p)) {
        lemma_statement_in(t, p);
        if let Ok((s, q)) = statement(t, p) {
            lemma_body_in(t, past(p, q), ctx, acc.push(s));
        }
    }
}

proof fn lemma_definition_in(t: Seq<TokenView>, p: int)
    ensures
        match definition(t, p) {
            Ok((d, _)) => definition_in(d, file(t)),
            Err(_) => true,
        },
{
    if let Ok((name, _)) = ident(t, p + 2, "definition name"@) {
        if let Ok((_, q)) = parent(t, p + 3) {
            let ctx = ContextView {
                what: "definition"@,
                name: Some(name),
                span: at(t, p + 2).span,
            };
            lemma_body_in(t, q, ctx, Seq::empty());
        }
    }
}

proof fn lemma_declaration_in(t: Seq<TokenView>, p: int)
    requires
        forall|i: int| 0 <= i < t.len() ==> (#[trigger] t[i]).span.file == file(t),
    ensures
        match declaration(t, p) {
            Ok((item, _)) => item_in(item, file(t)),
            Err(_) => true,
        },
{
    reveal_with_fuel(declaration, 2);
    reveal_with_fuel(namespace_body, 2);
    reveal_with_fuel(conditional_body, 2);
}

proof fn lemma_item_pushed(s: SourceView, item: ItemView, file: FileId)
    requires
        source_in(s, file),
        item_in(item, file),
    ensures
        source_in(SourceView { items: s.items.push(item), ignored: s.ignored }, file),
{
    let items = s.items.push(item);
    assert forall|i: int| 0 <= i < items.len() implies item_in(#[trigger] items[i], file) by {
        if i < s.items.len() {
            assert(items[i] == s.items[i]);
        }
    }
}

proof fn lemma_items_in(t: Seq<TokenView>, p: int, acc: Seq<ItemView>, ignored: Seq<Span>)
    requires
        source_in(SourceView { items: acc, ignored }, file(t)),
        forall|i: int| 0 <= i < t.len() ==> (#[trigger] t[i]).span.file == file(t),
    ensures
        match items(t, p, acc, ignored) {
            Ok(s) => source_in(s, file(t)),
            Err(_) => true,
        },
    decreases left(t, p),
{
    if kind(t, p) == TokenKind::Eof {
    } else if kind(t, p) == TokenKind::Definition || kind(t, p) == TokenKind::DefinitionTemplate {
        lemma_definition_in(t, p);
        if let Ok((d, q)) = definition(t, p) {
            lemma_item_pushed(SourceView { items: acc, ignored }, ItemView::Definition(d), file(t));
            lemma_items_in(t, past(p, q), acc.push(ItemView::Definition(d)), ignored);
        }
    } else if starts_declaration(kind(t, p)) {
        lemma_declaration_in(t, p);
        if let Ok((item, q)) = declaration(t, p) {
            lemma_item_pushed(SourceView { items: acc, ignored }, item, file(t));
            lemma_items_in(t, past(p, q), acc.push(item), ignored);
        }
    } else {
        let q = junk_end(t, p + 1);
        lemma_items_in(t, past(p, q), acc, ignored.push(span_between(t, p, q)));
    }
}

/// Every span names the file that was parsed: those of the definitions, of their statements
/// and of the text that was ignored.
pub proof fn spans_name_their_file(input: Seq<char>, file: FileId)
    ensures
        match source(input, file) {
            Ok(s) => source_in(s, file),
            Err(_) => true,
        },
{
    lexer::lemma_tokens_in(input, file, 0, Seq::empty());
    if let Ok(t) = lexer::lexed(input, file) {
        assert(t[0].span.file == file);
        lemma_items_in(t, 0, Seq::empty(), Seq::empty());
    }
}

proof fn lemma_junk_reaches_the_end(t: Seq<TokenView>, p: int)
    requires
        0 <= p,
        forall|i: int|
            0 <= i < t.len() ==> (#[trigger] t[i]).kind == TokenKind::Eof || !starts_item(
                t[i].kind,
            ),
    ensures
        kind(t, junk_end(t, p)) == TokenKind::Eof,
        junk_end(t, p) >= p,
    decreases left(t, p),
{
    if !starts_item(kind(t, p)) {
        lemma_junk_reaches_the_end(t, p + 1);
    }
}

/// Text in which no item starts is never an error: nothing is read from it, and all of it
/// is recorded as one ignored stretch, or as none where there is no token.
pub proof fn text_outside_items_is_ignored(input: Seq<char>, file: FileId)
    requires
        lexer::lexed(input, file) is Ok,
        forall|i: int|
            0 <= i < lexer::lexed(input, file)->Ok_0.len() ==> (#[trigger] lexer::lexed(
                input,
                file,
            )->Ok_0[i]).kind == TokenKind::Eof || !starts_item(
                lexer::lexed(input, file)->Ok_0[i].kind,
            ),
    ensures
        source(input, file) matches Ok(s) && s.items.len() == 0 && s.ignored.len() == (if kind(
            lexer::lexed(input, file)->Ok_0,
            0,
        ) == TokenKind::Eof {
            0int
        } else {
            1int
        }),
{
    let t = lexer::lexed(input, file)->Ok_0;
    if kind(t, 0) != TokenKind::Eof {
        lemma_junk_reaches_the_end(t, 1);
        reveal_with_fuel(items, 2);
    }
}

/// Whether one span ends where another begins, or before.
pub open spec fn comes_before(a: Span, b: Span) -> bool {
    a.end <= b.start
}

/// Whether the definitions of what was parsed and the stretches that were ignored stand in
/// the order of the text, each behind the one before, and no definition overlaps what was
/// ignored.
pub open spec fn spans_ascend(s: SourceView) -> bool {
    &&& forall|i: int, j: int|
        0 <= i < j < s.items.len() && s.items[i] is Definition && s.items[j] is Definition
            ==> comes_before(
            (#[trigger] s.items[i])->Definition_0.span,
            (#[trigger] s.items[j])->Definition_0.span,
        )
    &&& forall|i: int, j: int|
        0 <= i < j < s.ignored.len() ==> comes_before(
            #[trigger] s.ignored[i],
            #[trigger] s.ignored[j],
        )
    &&& forall|i: int, j: int|
        0 <= i < s.items.len() && s.items[i] is Definition && 0 <= j < s.ignored.len()
            ==> comes_before((#[trigger] s.items[i])->Definition_0.span, #[trigger] s.ignored[j])
            || comes_before(s.ignored[j], s.items[i]->Definition_0.span)
}

/// Whether all that was parsed so far ends before the token at `p`.
spec fn ends_before(s: SourceView, t: Seq<TokenView>, p: int) -> bool {
    p < t.len() ==> {
        &&& forall|i: int|
            0 <= i < s.items.len() && (#[trigger] s.items[i]) is Definition
                ==> s.items[i]->Definition_0.span.end <= t[p].span.start
        &&& forall|i: int|
            0 <= i < s.ignored.len() ==> (#[trigger] s.ignored[i]).end <= t[p].span.start
    }
}

/// Whether tokens stand in sequence, and the last is the end of the file.
spec fn well_lexed(t: Seq<TokenView>) -> bool {
    &&& t.len() > 0
    &&& t.last().kind == TokenKind::Eof
    &&& lexer::in_sequence(t)
    &&& forall|i: int| 0 <= i < t.len() ==> (#[trigger] t[i]).span.start <= t[i].span.end
}

proof fn lemma_body_ends(
    t: Seq<TokenView>,
    p: int,
    ctx: ContextView,
    acc: Seq<Spanned<StatementView>>,
)
    requires
        0 <= p,
        well_lexed(t),
    ensures
        match body(t, p, ctx, acc) {
            Ok((_, q)) => p < q < t.len(),
            Err(_) => true,
        },
    decreases left(t, p),
{
    if kind(t, p) != TokenKind::EndDefinition && !ends_body(kind(t, p)) {
        if let Ok((s, q)) = statement(t, p) {
            lemma_body_ends(t, past(p, q), ctx, acc.push(s));
        }
    }
}

proof fn lemma_definition_ends(t: Seq<TokenView>, p: int)
    requires
        0 <= p,
        well_lexed(t),
    ensures
        match definition(t, p) {
            Ok((d, q)) => p < q < t.len() && d.span == span_between(t, p, q),
            Err(_) => true,
        },
{
    if let Ok((name, _)) = ident(t, p + 2, "definition name"@) {
        if let Ok((_, q)) = parent(t, p + 3) {
            let ctx = ContextView {
                what: "definition"@,
                name: Some(name),
                span: at(t, p + 2).span,
            };
            lemma_body_ends(t, q, ctx, Seq::empty());
        }
    }
}

proof fn lemma_junk_ends(t: Seq<TokenView>, p: int)
    requires
        0 <= p < t.len(),
        well_lexed(t),
    ensures
        p <= junk_end(t, p) < t.len(),
    decreases left(t, p),
{
    if !starts_item(kind(t, p)) {
        lemma_junk_ends(t, p + 1);
    }
}

/// The stretch between two tokens begins behind all that ends before the first of them, and
/// ends before the token behind it.
proof fn lemma_between(t: Seq<TokenView>, p: int, q: int)
    requires
        well_lexed(t),
        0 <= p < q < t.len(),
    ensures
        span_between(t, p, q).start == t[p].span.start,
        t[p].span.start <= span_between(t, p, q).end <= t[q].span.start,
{
    assert(t[q - 1].span.end <= t[q].span.start);
    assert(t[p].span.start <= t[p].span.end);
    if p < q - 1 {
        assert(t[p].span.end <= t[q - 1].span.start);
    }
    assert(t[q - 1].span.start <= t[q - 1].span.end);
}

proof fn lemma_with_definition(
    s: SourceView,
    t: Seq<TokenView>,
    p: int,
    q: int,
    d: Spanned<DefinitionView>,
)
    requires
        well_lexed(t),
        0 <= p < q < t.len(),
        spans_ascend(s),
        ends_before(s, t, p),
        d.span == span_between(t, p, q),
    ensures
        ({
            let next = SourceView {
                items: s.items.push(ItemView::Definition(d)),
                ignored: s.ignored,
            };
            spans_ascend(next) && ends_before(next, t, q)
        }),
{
    lemma_between(t, p, q);
    let next = SourceView { items: s.items.push(ItemView::Definition(d)), ignored: s.ignored };
    let n = s.items.len() as int;
    assert(next.items[n] == ItemView::Definition(d));
    assert forall|i: int| 0 <= i < n implies next.items[i] == s.items[i] by {}
    assert forall|i: int, j: int|
        0 <= i < j < next.items.len() && next.items[i] is Definition
            && next.items[j] is Definition implies comes_before(
        (#[trigger] next.items[i])->Definition_0.span,
        (#[trigger] next.items[j])->Definition_0.span,
    ) by {
        assert(next.items[i] == s.items[i]);
        if j < n {
            assert(next.items[j] == s.items[j]);
        }
    }
    assert forall|i: int, j: int|
        0 <= i < next.items.len() && next.items[i] is Definition && 0 <= j
            < next.ignored.len() implies comes_before(
        (#[trigger] next.items[i])->Definition_0.span,
        #[trigger] next.ignored[j],
    ) || comes_before(next.ignored[j], next.items[i]->Definition_0.span) by {
        if i < n {
            assert(next.items[i] == s.items[i]);
        } else {
            assert(s.ignored[j].end <= t[p].span.start);
        }
    }
    assert forall|i: int|
        0 <= i < next.items.len() && (#[trigger] next.items[i]) is Definition implies next.items[i]
        ->Definition_0.span.end <= t[q].span.start by {
        if i < n {
            assert(next.items[i] == s.items[i]);
            assert(t[p].span.end <= t[q].span.start);
        }
    }
}

proof fn lemma_with_item(s: SourceView, t: Seq<TokenView>, p: int, q: int, item: ItemView)
    requires
        well_lexed(t),
        0 <= p < q,
        spans_ascend(s),
        ends_before(s, t, p),
        !(item is Definition),
    ensures
        ({
            let next = SourceView { items: s.items.push(item), ignored: s.ignored };
            spans_ascend(next) && ends_before(next, t, q)
        }),
{
    let next = SourceView { items: s.items.push(item), ignored: s.ignored };
    let n = s.items.len() as int;
    assert(next.items[n] == item);
    assert forall|i: int| 0 <= i < n implies next.items[i] == s.items[i] by {}
    if q < t.len() {
        assert(t[p].span.end <= t[q].span.start);
        assert forall|i: int|
            0 <= i < next.items.len() && (#[trigger] next.items[i]) is Definition implies next.items[i]
            ->Definition_0.span.end <= t[q].span.start by {
            assert(next.items[i] == s.items[i]);
        }
    }
}

proof fn lemma_with_ignored(s: SourceView, t: Seq<TokenView>, p: int, q: int)
    requires
        well_lexed(t),
        0 <= p < q < t.len(),
        spans_ascend(s),
        ends_before(s, t, p),
    ensures
        ({
            let next = SourceView {
                items: s.items,
                ignored: s.ignored.push(span_between(t, p, q)),
            };
            spans_ascend(next) && ends_before(next, t, q)
        }),
{
    lemma_between(t, p, q);
    let next = SourceView { items: s.items, ignored: s.ignored.push(span_between(t, p, q)) };
    let n = s.ignored.len() as int;
    assert(next.ignored[n] == span_between(t, p, q));
    assert forall|i: int| 0 <= i < n implies next.ignored[i] == s.ignored[i] by {}
    assert(t[p].span.end <= t[q].span.start);
}

proof fn lemma_declaration_is_none(t: Seq<TokenView>, p: int)
    ensures
        match declaration(t, p) {
            Ok((item, _)) => !(item is Definition),
            Err(_) => true,
        },
{
    reveal_with_fuel(declaration, 2);
    reveal_with_fuel(namespace_body, 2);
    reveal_with_fuel(conditional_body, 2);
}

proof fn lemma_items_ascend(t: Seq<TokenView>, p: int, acc: Seq<ItemView>, ignored: Seq<Span>)
    requires
        0 <= p,
        well_lexed(t),
        spans_ascend(SourceView { items: acc, ignored }),
        ends_before(SourceView { items: acc, ignored }, t, p),
    ensures
        match items(t, p, acc, ignored) {
            Ok(s) => spans_ascend(s),
            Err(_) => true,
        },
    decreases left(t, p),
{
    let s = SourceView { items: acc, ignored };
    if kind(t, p) == TokenKind::Eof {
    } else if kind(t, p) == TokenKind::Definition || kind(t, p) == TokenKind::DefinitionTemplate {
        lemma_definition_ends(t, p);
        if let Ok((d, q)) = definition(t, p) {
            lemma_with_definition(s, t, p, q, d);
            lemma_items_ascend(t, past(p, q), acc.push(ItemView::Definition(d)), ignored);
        }
    } else if starts_declaration(kind(t, p)) {
        lemma_declaration_is_none(t, p);
        if let Ok((item, q)) = declaration(t, p) {
            lemma_with_item(s, t, p, past(p, q), item);
            lemma_items_ascend(t, past(p, q), acc.push(item), ignored);
        }
    } else {
        let q = junk_end(t, p + 1);
        lemma_junk_ends(t, p + 1);
        lemma_with_ignored(s, t, p, q);
        lemma_items_ascend(t, past(p, q), acc, ignored.push(span_between(t, p, q)));
    }
}

/// The definitions of a file and the stretches of it that are ignored ascend in the text,
/// and none overlaps another.
pub proof fn definitions_and_ignored_text_do_not_overlap(input: Seq<char>, file: FileId)
    requires
        vstd::utf8::encode_utf8(input).len() <= usize::MAX,
    ensures
        match source(input, file) {
            Ok(s) => spans_ascend(s),
            Err(_) => true,
        },
{
    lexer::lemma_tokens_in(input, file, 0, Seq::empty());
    lexer::tokens_stand_in_the_text(input, file);
    if let Ok(t) = lexer::lexed(input, file) {
        assert forall|i: int| 0 <= i < t.len() implies (#[trigger] t[i]).span.start
            <= t[i].span.end by {
            assert(lexer::stands(input, file, t[i]));
        }
        lemma_items_ascend(t, 0, Seq::empty(), Seq::empty());
    }
}

} // verus!
