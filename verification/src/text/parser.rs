//! The parser: one function per production of the grammar.

use vstd::prelude::*;

use crate::strings::{chars_of, parse_i64, push_text, same, text_between};
use crate::text::ast;
use crate::text::ast::{
    Call, Define, Definition, EnumDecl, EnumExpr, EnumVariant, Expr, Field, IfDef, Item, MethodCall,
    Namespace, PathSegment, PropertyPath, SourceAst, Statement, TaggedBlock,
};
use crate::text::base;
use crate::text::base::{FileId, ParseContext, ParseError, Span, Spanned};
use crate::text::cursor::{Cursor, CursorView, DefParseError};
use crate::text::grammar;
use crate::text::lexer::{lex, lex_error_to_parse_error, TextParseErrorKind, TokenKind};

verus! {

broadcast use base::group_views;

/// What a parsing function gave, in the terms of the grammar.
pub open spec fn outcome<T: View>(r: Result<T, DefParseError>, c: CursorView) -> grammar::Parsed<
    T::V,
> {
    match r {
        Ok(v) => Ok((v@, c.pos)),
        Err(e) => Err(e@),
    }
}

/// [`outcome`] for a function that gives a list.
pub open spec fn listed<T: View>(
    r: Result<Vec<T>, DefParseError>,
    c: CursorView,
) -> grammar::Parsed<Seq<T::V>> {
    match r {
        Ok(v) => Ok((base::views(v@), c.pos)),
        Err(e) => Err(e@),
    }
}

/// Where a parsing function leaves the cursor: at the same tokens, not before
/// where it was, and behind where it was if it read something.
pub open spec fn moved(before: CursorView, after: CursorView, read: bool) -> bool {
    &&& after.ready()
    &&& after.tokens == before.tokens
    &&& after.pos >= before.pos
    &&& read ==> after.pos > before.pos
}

// ── Expressions ──────────────────────────────────────────────────────────────

/// Read one expression.
pub fn parse_expr(cursor: &mut Cursor) -> (r: Result<Spanned<Expr>, DefParseError>)
    requires
        old(cursor)@.ready(),
    ensures
        moved(old(cursor)@, final(cursor)@, r is Ok),
        outcome(r, final(cursor)@) == grammar::expr(old(cursor)@.tokens, old(cursor)@.pos),
    decreases old(cursor)@.left(), 5nat,
{
    parse_bitor_expr(cursor)
}

fn parse_bitor_expr(cursor: &mut Cursor) -> (r: Result<Spanned<Expr>, DefParseError>)
    requires
        old(cursor)@.ready(),
    ensures
        moved(old(cursor)@, final(cursor)@, r is Ok),
        outcome(r, final(cursor)@) == grammar::bitor(old(cursor)@.tokens, old(cursor)@.pos),
    decreases old(cursor)@.left(), 4nat,
{
    let from = cursor.span().start;
    let first = match parse_add_expr(cursor) {
        Ok(v) => v,
        Err(e) => return Err(e),
    };
    let mut terms = match parse_bitor_terms(cursor, first) {
        Ok(v) => v,
        Err(e) => return Err(e),
    };
    if terms.len() == 1 {
        let ghost only = base::views(terms@)[0];
        match terms.pop() {
            Some(v) => {
                assert(v@ == only);
                Ok(v)
            },
            None => Err(cursor.unexpected("expression")),
        }
    } else {
        let value = Expr::BitOr(terms);
        proof {
            ast::lemma_expr_view(value);
        }
        Ok(Spanned { span: cursor.span_from(from), value })
    }
}

/// The terms of a bitwise-or expression, of which `first` has been read.
fn parse_bitor_terms(cursor: &mut Cursor, first: Spanned<Expr>) -> (r: Result<
    Vec<Spanned<Expr>>,
    DefParseError,
>)
    requires
        old(cursor)@.ready(),
    ensures
        moved(old(cursor)@, final(cursor)@, false),
        listed(r, final(cursor)@) == grammar::bitor_rest(
            old(cursor)@.tokens,
            old(cursor)@.pos,
            seq![first@],
        ),
    decreases old(cursor)@.left(), 3nat,
{
    let ghost start = cursor@;
    let mut terms: Vec<Spanned<Expr>> = Vec::new();
    terms.push(first);
    assert(base::views(terms@) == seq![first@]);
    while cursor.at(TokenKind::Pipe)
        invariant
            start == old(cursor)@,
            moved(start, cursor@, false),
            grammar::bitor_rest(start.tokens, cursor@.pos, base::views(terms@))
                == grammar::bitor_rest(start.tokens, start.pos, seq![first@]),
        decreases cursor@.left(),
    {
        cursor.bump();
        match parse_add_expr(cursor) {
            Ok(v) => terms.push(v),
            Err(e) => return Err(e),
        }
    }
    Ok(terms)
}

fn parse_add_expr(cursor: &mut Cursor) -> (r: Result<Spanned<Expr>, DefParseError>)
    requires
        old(cursor)@.ready(),
    ensures
        moved(old(cursor)@, final(cursor)@, r is Ok),
        outcome(r, final(cursor)@) == grammar::sum(old(cursor)@.tokens, old(cursor)@.pos),
    decreases old(cursor)@.left(), 2nat,
{
    let from = cursor.span().start;
    let first = match parse_leaf_expr(cursor) {
        Ok(v) => v,
        Err(e) => return Err(e),
    };
    let mut terms = match parse_add_terms(cursor, first) {
        Ok(v) => v,
        Err(e) => return Err(e),
    };
    if terms.len() == 1 {
        let ghost only = base::views(terms@)[0];
        match terms.pop() {
            Some(v) => {
                assert(v@ == only);
                Ok(v)
            },
            None => Err(cursor.unexpected("expression")),
        }
    } else {
        let value = Expr::Add(terms);
        proof {
            ast::lemma_expr_view(value);
        }
        Ok(Spanned { span: cursor.span_from(from), value })
    }
}

/// The terms of a sum, of which `first` has been read.
fn parse_add_terms(cursor: &mut Cursor, first: Spanned<Expr>) -> (r: Result<
    Vec<Spanned<Expr>>,
    DefParseError,
>)
    requires
        old(cursor)@.ready(),
    ensures
        moved(old(cursor)@, final(cursor)@, false),
        listed(r, final(cursor)@) == grammar::sum_rest(
            old(cursor)@.tokens,
            old(cursor)@.pos,
            seq![first@],
        ),
    decreases old(cursor)@.left(), 1nat,
{
    let ghost start = cursor@;
    let mut terms: Vec<Spanned<Expr>> = Vec::new();
    terms.push(first);
    assert(base::views(terms@) == seq![first@]);
    while cursor.at(TokenKind::Plus)
        invariant
            start == old(cursor)@,
            moved(start, cursor@, false),
            grammar::sum_rest(start.tokens, cursor@.pos, base::views(terms@)) == grammar::sum_rest(
                start.tokens,
                start.pos,
                seq![first@],
            ),
        decreases cursor@.left(),
    {
        cursor.bump();
        match parse_leaf_expr(cursor) {
            Ok(v) => terms.push(v),
            Err(e) => return Err(e),
        }
    }
    Ok(terms)
}

fn parse_leaf_expr(cursor: &mut Cursor) -> (r: Result<Spanned<Expr>, DefParseError>)
    requires
        old(cursor)@.ready(),
    ensures
        moved(old(cursor)@, final(cursor)@, r is Ok),
        outcome(r, final(cursor)@) == grammar::leaf(old(cursor)@.tokens, old(cursor)@.pos),
    decreases old(cursor)@.left(), 0nat,
{
    let kind = cursor.kind();
    let span = cursor.span();
    let source = cursor.peek().source.clone();
    let value = match kind {
        TokenKind::Str => {
            cursor.bump();
            let chars = chars_of(source.as_str());
            assert(old(cursor)@.tokens[old(cursor)@.pos].source.len() >= 2);
            Expr::String(text_between(&chars, 1, chars.len() - 1))
        },
        TokenKind::Number => {
            cursor.bump();
            Expr::Number(source)
        },
        TokenKind::Ident => {
            cursor.bump();
            if same(source.as_str(), "TRUE") || same(source.as_str(), "BTRUE") {
                Expr::Bool(true)
            } else if same(source.as_str(), "FALSE") || same(source.as_str(), "BFALSE") {
                Expr::Bool(false)
            } else if cursor.at(TokenKind::LParen) {
                let call = match parse_call_with_name(cursor, source) {
                    Ok(c) => c,
                    Err(e) => return Err(e),
                };
                let value = Expr::Constructor(call);
                proof {
                    ast::lemma_expr_view(value);
                }
                return Ok(Spanned { span: cursor.span_from(span.start), value });
            } else {
                Expr::Symbol(source)
            }
        },
        _ => return Err(cursor.unexpected("expression")),
    };
    proof {
        ast::lemma_expr_view(value);
    }
    Ok(Spanned { span, value })
}

fn parse_call_with_name(cursor: &mut Cursor, name: String) -> (r: Result<Call, DefParseError>)
    requires
        old(cursor)@.ready(),
    ensures
        moved(old(cursor)@, final(cursor)@, r is Ok),
        outcome(r, final(cursor)@) == grammar::call(old(cursor)@.tokens, old(cursor)@.pos, name@),
    decreases old(cursor)@.left(), 8nat,
{
    match cursor.expect(TokenKind::LParen) {
        Ok(_) => {},
        Err(e) => return Err(e),
    }
    let arguments = match parse_arguments(cursor) {
        Ok(v) => v,
        Err(e) => return Err(e),
    };
    match cursor.expect(TokenKind::RParen) {
        Ok(_) => {},
        Err(e) => return Err(e),
    }
    Ok(Call { name, arguments })
}

fn parse_arguments(cursor: &mut Cursor) -> (r: Result<Vec<Spanned<Expr>>, DefParseError>)
    requires
        old(cursor)@.ready(),
    ensures
        moved(old(cursor)@, final(cursor)@, false),
        listed(r, final(cursor)@) == grammar::arguments(old(cursor)@.tokens, old(cursor)@.pos),
    decreases old(cursor)@.left(), 7nat,
{
    let ghost start = cursor@;
    let mut args: Vec<Spanned<Expr>> = Vec::new();
    if cursor.at(TokenKind::RParen) {
        return Ok(args);
    }
    loop
        invariant
            start == old(cursor)@,
            moved(start, cursor@, false),
            grammar::arguments_from(start.tokens, cursor@.pos, base::views(args@))
                == grammar::arguments(start.tokens, start.pos),
        decreases cursor@.left(),
    {
        match parse_expr(cursor) {
            Ok(v) => args.push(v),
            Err(e) => return Err(e),
        }
        if cursor.at(TokenKind::Comma) {
            cursor.bump();
        } else {
            return Ok(args);
        }
    }
}

// ── Statements ───────────────────────────────────────────────────────────────

fn is_body_terminator(kind: TokenKind) -> (r: bool)
    ensures
        r == grammar::ends_body(kind),
{
    match kind {
        TokenKind::Definition => true,
        TokenKind::DefinitionTemplate => true,
        TokenKind::Define => true,
        TokenKind::Ifdef => true,
        TokenKind::Ifndef => true,
        TokenKind::Else => true,
        TokenKind::Endif => true,
        TokenKind::Pragma => true,
        TokenKind::Namespace => true,
        TokenKind::Enum => true,
        TokenKind::Eof => true,
        _ => false,
    }
}

fn parse_property_path(cursor: &mut Cursor) -> (r: Result<PropertyPath, DefParseError>)
    requires
        old(cursor)@.ready(),
    ensures
        moved(old(cursor)@, final(cursor)@, r is Ok),
        outcome(r, final(cursor)@) == grammar::path(old(cursor)@.tokens, old(cursor)@.pos),
        r matches Ok(p) ==> p@.len() > 0,
{
    let ghost start = cursor@;
    let first = match cursor.expect_ident("field name") {
        Ok(s) => s,
        Err(e) => return Err(e),
    };
    let mut segments: Vec<PathSegment> = Vec::new();
    segments.push(PathSegment::Field(first));
    assert(base::views(segments@) == seq![ast::SegmentView::Field(first@)]);
    loop
        invariant
            start == old(cursor)@,
            moved(start, cursor@, true),
            segments@.len() > 0,
            grammar::path_rest(start.tokens, cursor@.pos, base::views(segments@)) == grammar::path(
                start.tokens,
                start.pos,
            ),
        decreases cursor@.left(),
    {
        if cursor.at(TokenKind::Dot) {
            cursor.bump();
            match cursor.expect_ident("field name") {
                Ok(s) => segments.push(PathSegment::Field(s)),
                Err(e) => return Err(e),
            }
        } else if cursor.at(TokenKind::LBracket) {
            cursor.bump();
            let index = match parse_expr(cursor) {
                Ok(index) => index,
                Err(e) => return Err(e),
            };
            match cursor.expect(TokenKind::RBracket) {
                Ok(_) => {},
                Err(e) => return Err(e),
            }
            segments.push(PathSegment::Index(index));
        } else {
            return Ok(PropertyPath { segments });
        }
    }
}

/// Split a path that an argument list follows into the object and the method.
fn split_method_path(cursor: &Cursor, path: PropertyPath) -> (r: Result<
    (PropertyPath, String),
    DefParseError,
>)
    requires
        cursor@.ready(),
        path@.len() > 0,
    ensures
        match (r, path@.last()) {
            (Ok((object, method)), ast::SegmentView::Field(s)) => object@ == path@.drop_last()
                && method@ == s,
            (Err(e), ast::SegmentView::Index(_)) => e@ == grammar::fail(
                cursor@.tokens,
                cursor@.pos,
                TextParseErrorKind::MethodNameIsIndex@,
            ),
            _ => false,
        },
{
    let ghost whole = path@;
    let mut segments = path.segments;
    let ghost before = segments@;
    match segments.pop() {
        Some(last) => {
            assert(last@ == whole.last());
            match last {
                PathSegment::Field(method) => {
                    assert(base::views(segments@) =~= whole.drop_last());
                    Ok((PropertyPath { segments }, method))
                },
                PathSegment::Index(_) => Err(cursor.err(TextParseErrorKind::MethodNameIsIndex)),
            }
        },
        None => Err(cursor.err(TextParseErrorKind::MethodNameIsIndex)),
    }
}

fn parse_statement(cursor: &mut Cursor) -> (r: Result<Spanned<Statement>, DefParseError>)
    requires
        old(cursor)@.ready(),
    ensures
        moved(old(cursor)@, final(cursor)@, r is Ok),
        outcome(r, final(cursor)@) == grammar::statement(old(cursor)@.tokens, old(cursor)@.pos),
    decreases old(cursor)@.left(), 2nat,
{
    let from = cursor.span().start;
    // A `<` followed by `\` opens a closing tag.
    if cursor.at(TokenKind::Lt) && cursor.kind_at(1) != TokenKind::Backslash {
        let block = match parse_tagged_block(cursor) {
            Ok(b) => b,
            Err(e) => return Err(e),
        };
        let value = Statement::TaggedBlock(block);
        proof {
            ast::lemma_statement_view(value);
        }
        return Ok(Spanned { span: cursor.span_from(from), value });
    }
    let path = match parse_property_path(cursor) {
        Ok(p) => p,
        Err(e) => return Err(e),
    };
    if cursor.at(TokenKind::LParen) {
        let (object, method) = match split_method_path(cursor, path) {
            Ok(v) => v,
            Err(e) => return Err(e),
        };
        let call = match parse_call_with_name(cursor, method) {
            Ok(c) => c,
            Err(e) => return Err(e),
        };
        cursor.skip(TokenKind::Semi);
        let value = Statement::MethodCall(MethodCall { object, call });
        proof {
            ast::lemma_statement_view(value);
        }
        return Ok(Spanned { span: cursor.span_from(from), value });
    }
    let expr = match parse_expr(cursor) {
        Ok(e) => e,
        Err(e) => return Err(e),
    };
    cursor.skip(TokenKind::Semi);
    let value = Statement::Field(Field { path, expr });
    proof {
        ast::lemma_statement_view(value);
    }
    Ok(Spanned { span: cursor.span_from(from), value })
}

/// The name of a block's closing tag.
fn closing_tag(tag: &str) -> (r: String)
    ensures
        r@ == grammar::closer(tag@),
{
    let mut s = String::new();
    push_text(&mut s, "<\\");
    push_text(&mut s, tag);
    push_text(&mut s, ">");
    assert(s@ =~= grammar::closer(tag@));
    s
}

fn parse_tagged_block(cursor: &mut Cursor) -> (r: Result<TaggedBlock, DefParseError>)
    requires
        old(cursor)@.ready(),
    ensures
        moved(old(cursor)@, final(cursor)@, r is Ok),
        (match r {
            Ok(b) => Ok(
                (
                    ast::StatementView::TaggedBlock { tag: b.tag@, body: base::views(b.body@) },
                    final(cursor)@.pos,
                ),
            ),
            Err(e) => Err(e@),
        }) == grammar::tagged(old(cursor)@.tokens, old(cursor)@.pos),
    decreases old(cursor)@.left(), 1nat,
{
    match cursor.expect(TokenKind::Lt) {
        Ok(_) => {},
        Err(e) => return Err(e),
    }
    let tag_span = cursor.span();
    let tag = match cursor.expect_ident("tag name") {
        Ok(s) => s,
        Err(e) => return Err(e),
    };
    match cursor.expect(TokenKind::Gt) {
        Ok(_) => {},
        Err(e) => return Err(e),
    }
    // Innermost wins, so an error inside the block reports the block rather
    // than the enclosing definition.
    let ctx = ParseContext::new("tagged block", Some(tag.clone()), tag_span);
    match parse_tagged_body(cursor, tag.as_str(), &ctx) {
        Ok(body) => Ok(TaggedBlock { tag, body }),
        Err(e) => Err(e),
    }
}

/// The statements of the block `tag`, up to its closing tag.
fn parse_tagged_body(cursor: &mut Cursor, tag: &str, ctx: &ParseContext) -> (r: Result<
    Vec<Spanned<Statement>>,
    DefParseError,
>)
    requires
        old(cursor)@.ready(),
    ensures
        moved(old(cursor)@, final(cursor)@, false),
        listed(r, final(cursor)@) == grammar::tagged_body(
            old(cursor)@.tokens,
            old(cursor)@.pos,
            tag@,
            ctx@,
            Seq::empty(),
        ),
    decreases old(cursor)@.left(), 3nat,
{
    let ghost start = cursor@;
    let mut body: Vec<Spanned<Statement>> = Vec::new();
    loop
        invariant
            start == old(cursor)@,
            moved(start, cursor@, false),
            grammar::tagged_body(start.tokens, cursor@.pos, tag@, ctx@, base::views(body@))
                == grammar::tagged_body(start.tokens, start.pos, tag@, ctx@, Seq::empty()),
        decreases cursor@.left(),
    {
        let kind = cursor.kind();
        if kind == TokenKind::Lt && cursor.kind_at(1) == TokenKind::Backslash {
            let from = cursor.span().start;
            cursor.bump();
            cursor.bump();
            let closed = match cursor.expect_ident("closing tag name") {
                Ok(s) => s,
                Err(e) => return Err(e),
            };
            match cursor.expect(TokenKind::Gt) {
                Ok(_) => {},
                Err(e) => return Err(e),
            }
            if !same(closed.as_str(), tag) {
                return Err(
                    ParseError::new(
                        cursor.span_from(from),
                        TextParseErrorKind::MismatchedTag { opened: tag.to_owned(), closed },
                    ),
                );
            }
            return Ok(body);
        }
        if is_body_terminator(kind) || kind == TokenKind::EndDefinition {
            let closer = closing_tag(tag);
            return Err(cursor.unexpected(closer.as_str()).within(ctx));
        }
        match parse_statement(cursor) {
            Ok(s) => body.push(s),
            Err(e) => return Err(e.within(ctx)),
        }
    }
}

// ── Definitions ──────────────────────────────────────────────────────────────

/// The clause that names a definition's parent, if there is one.
fn parse_parent(cursor: &mut Cursor) -> (r: Result<Option<(String, Span)>, DefParseError>)
    requires
        old(cursor)@.ready(),
    ensures
        moved(old(cursor)@, final(cursor)@, false),
        match (r, grammar::parent(old(cursor)@.tokens, old(cursor)@.pos)) {
            (Ok(None), Ok((None, q))) => final(cursor)@.pos == q,
            (Ok(Some((s, span))), Ok((Some((v, w)), q))) => s@ == v && span == w
                && final(cursor)@.pos == q,
            (Err(e), Err(f)) => e@ == f,
            _ => false,
        },
{
    if cursor.at_ident("specialises") {
        let from = cursor.span().start;
        cursor.bump();
        match cursor.expect_ident("specialised parent") {
            Ok(parent) => Ok(Some((parent, cursor.span_from(from)))),
            Err(e) => Err(e),
        }
    } else {
        Ok(None)
    }
}

fn parse_definition(cursor: &mut Cursor) -> (r: Result<Spanned<Definition>, DefParseError>)
    requires
        old(cursor)@.ready(),
    ensures
        moved(old(cursor)@, final(cursor)@, r is Ok),
        outcome(r, final(cursor)@) == grammar::definition(old(cursor)@.tokens, old(cursor)@.pos),
{
    let from = cursor.span().start;
    let is_template = match cursor.kind() {
        TokenKind::DefinitionTemplate => true,
        TokenKind::Definition => false,
        _ => return Err(cursor.unexpected("#definition or #definition_template")),
    };
    cursor.bump();
    let def_type = match cursor.expect_ident("definition type") {
        Ok(s) => s,
        Err(e) => return Err(e),
    };
    let name_span = cursor.span();
    let name = match cursor.expect_ident("definition name") {
        Ok(s) => s,
        Err(e) => return Err(e),
    };
    // From here to `#end_definition`, errors are "in definition `NAME`".
    let ctx = ParseContext::new("definition", Some(name.clone()), name_span);
    let parent = match parse_parent(cursor) {
        Ok(p) => p,
        Err(e) => return Err(e),
    };
    let body = match parse_body(cursor, &ctx) {
        Ok(b) => b,
        Err(e) => return Err(e),
    };
    let (specializes, specializes_span) = match parent {
        Some((parent, span)) => (Some(parent), Some(span)),
        None => (None, None),
    };
    let value = Definition { is_template, def_type, name, specializes, specializes_span, body };
    Ok(Spanned { span: cursor.span_from(from), value })
}

/// The statements of a definition, up to and with its `#end_definition`.
fn parse_body(cursor: &mut Cursor, ctx: &ParseContext) -> (r: Result<
    Vec<Spanned<Statement>>,
    DefParseError,
>)
    requires
        old(cursor)@.ready(),
    ensures
        moved(old(cursor)@, final(cursor)@, r is Ok),
        listed(r, final(cursor)@) == grammar::body(
            old(cursor)@.tokens,
            old(cursor)@.pos,
            ctx@,
            Seq::empty(),
        ),
{
    let ghost start = cursor@;
    let mut body: Vec<Spanned<Statement>> = Vec::new();
    loop
        invariant
            start == old(cursor)@,
            moved(start, cursor@, false),
            grammar::body(start.tokens, cursor@.pos, ctx@, base::views(body@)) == grammar::body(
                start.tokens,
                start.pos,
                ctx@,
                Seq::empty(),
            ),
        decreases cursor@.left(),
    {
        let kind = cursor.kind();
        if kind == TokenKind::EndDefinition {
            cursor.bump();
            cursor.skip(TokenKind::Semi);
            return Ok(body);
        }
        if is_body_terminator(kind) {
            return Err(cursor.err(TextParseErrorKind::MissingEndDefinition).within(ctx));
        }
        match parse_statement(cursor) {
            Ok(s) => body.push(s),
            Err(e) => return Err(e.within(ctx)),
        }
    }
}

// ── Declarations ─────────────────────────────────────────────────────────────

/// Read the number at the position as an integer.
fn parse_integer(cursor: &mut Cursor) -> (r: Result<i64, DefParseError>)
    requires
        old(cursor)@.ready(),
        grammar::kind(old(cursor)@.tokens, old(cursor)@.pos) == TokenKind::Number,
    ensures
        moved(old(cursor)@, final(cursor)@, r is Ok),
        (match r {
            Ok(n) => Ok((n, final(cursor)@.pos)),
            Err(e) => Err(e@),
        }) == grammar::integer(old(cursor)@.tokens, old(cursor)@.pos),
{
    match parse_i64(cursor.peek().source.as_str()) {
        Some(n) => {
            cursor.bump();
            Ok(n)
        },
        None => Err(cursor.err(TextParseErrorKind::InvalidNumber)),
    }
}

fn parse_enum_leaf(cursor: &mut Cursor) -> (r: Result<EnumExpr, DefParseError>)
    requires
        old(cursor)@.ready(),
    ensures
        moved(old(cursor)@, final(cursor)@, r is Ok),
        outcome(r, final(cursor)@) == grammar::enum_leaf(old(cursor)@.tokens, old(cursor)@.pos),
        r matches Ok(e) ==> e@.sound(),
{
    let span = cursor.span();
    match cursor.kind() {
        TokenKind::Number => match parse_integer(cursor) {
            Ok(n) => {
                let e = EnumExpr::Int(Spanned { span, value: n });
                proof {
                    ast::lemma_enum_expr_view(e);
                }
                Ok(e)
            },
            Err(e) => Err(e),
        },
        TokenKind::Ident => {
            let value = cursor.peek().source.clone();
            cursor.bump();
            let e = EnumExpr::Ident(Spanned { span, value });
            proof {
                ast::lemma_enum_expr_view(e);
            }
            Ok(e)
        },
        _ => Err(cursor.unexpected("number or identifier")),
    }
}

/// Whether all of `terms` are sound.
spec fn terms_sound(terms: Seq<ast::EnumExprView>) -> bool {
    forall|i: int| 0 <= i < terms.len() ==> (#[trigger] terms[i]).sound()
}

fn parse_enum_shift(cursor: &mut Cursor) -> (r: Result<EnumExpr, DefParseError>)
    requires
        old(cursor)@.ready(),
    ensures
        moved(old(cursor)@, final(cursor)@, r is Ok),
        outcome(r, final(cursor)@) == grammar::enum_shift(old(cursor)@.tokens, old(cursor)@.pos),
        r matches Ok(e) ==> e@.sound(),
{
    let first = match parse_enum_leaf(cursor) {
        Ok(v) => v,
        Err(e) => return Err(e),
    };
    let mut terms = match parse_enum_shift_terms(cursor, first) {
        Ok(v) => v,
        Err(e) => return Err(e),
    };
    if terms.len() == 1 {
        let ghost only = base::views(terms@)[0];
        match terms.pop() {
            Some(v) => {
                assert(v@ == only);
                Ok(v)
            },
            None => Err(cursor.unexpected("number or identifier")),
        }
    } else {
        let e = EnumExpr::Shift(terms);
        proof {
            ast::lemma_enum_expr_view(e);
        }
        Ok(e)
    }
}

fn parse_enum_shift_terms(cursor: &mut Cursor, first: EnumExpr) -> (r: Result<
    Vec<EnumExpr>,
    DefParseError,
>)
    requires
        old(cursor)@.ready(),
        first@.sound(),
    ensures
        moved(old(cursor)@, final(cursor)@, false),
        listed(r, final(cursor)@) == grammar::enum_shift_rest(
            old(cursor)@.tokens,
            old(cursor)@.pos,
            seq![first@],
        ),
        r matches Ok(v) ==> v@.len() > 0 && terms_sound(base::views(v@)),
{
    let ghost start = cursor@;
    let mut terms: Vec<EnumExpr> = Vec::new();
    terms.push(first);
    assert(base::views(terms@) == seq![first@]);
    while cursor.at(TokenKind::Shl)
        invariant
            start == old(cursor)@,
            moved(start, cursor@, false),
            terms@.len() > 0,
            terms_sound(base::views(terms@)),
            grammar::enum_shift_rest(start.tokens, cursor@.pos, base::views(terms@))
                == grammar::enum_shift_rest(start.tokens, start.pos, seq![first@]),
        decreases cursor@.left(),
    {
        cursor.bump();
        match parse_enum_leaf(cursor) {
            Ok(v) => terms.push(v),
            Err(e) => return Err(e),
        }
    }
    Ok(terms)
}

fn parse_enum_expr(cursor: &mut Cursor) -> (r: Result<EnumExpr, DefParseError>)
    requires
        old(cursor)@.ready(),
    ensures
        moved(old(cursor)@, final(cursor)@, r is Ok),
        outcome(r, final(cursor)@) == grammar::enum_expr(old(cursor)@.tokens, old(cursor)@.pos),
        r matches Ok(e) ==> e@.sound(),
{
    let first = match parse_enum_shift(cursor) {
        Ok(v) => v,
        Err(e) => return Err(e),
    };
    let mut terms = match parse_enum_bitor_terms(cursor, first) {
        Ok(v) => v,
        Err(e) => return Err(e),
    };
    if terms.len() == 1 {
        let ghost only = base::views(terms@)[0];
        match terms.pop() {
            Some(v) => {
                assert(v@ == only);
                Ok(v)
            },
            None => Err(cursor.unexpected("number or identifier")),
        }
    } else {
        let e = EnumExpr::BitOr(terms);
        proof {
            ast::lemma_enum_expr_view(e);
        }
        Ok(e)
    }
}

fn parse_enum_bitor_terms(cursor: &mut Cursor, first: EnumExpr) -> (r: Result<
    Vec<EnumExpr>,
    DefParseError,
>)
    requires
        old(cursor)@.ready(),
        first@.sound(),
    ensures
        moved(old(cursor)@, final(cursor)@, false),
        listed(r, final(cursor)@) == grammar::enum_bitor_rest(
            old(cursor)@.tokens,
            old(cursor)@.pos,
            seq![first@],
        ),
        r matches Ok(v) ==> v@.len() > 0 && terms_sound(base::views(v@)),
{
    let ghost start = cursor@;
    let mut terms: Vec<EnumExpr> = Vec::new();
    terms.push(first);
    assert(base::views(terms@) == seq![first@]);
    while cursor.at(TokenKind::Pipe)
        invariant
            start == old(cursor)@,
            moved(start, cursor@, false),
            terms@.len() > 0,
            terms_sound(base::views(terms@)),
            grammar::enum_bitor_rest(start.tokens, cursor@.pos, base::views(terms@))
                == grammar::enum_bitor_rest(start.tokens, start.pos, seq![first@]),
        decreases cursor@.left(),
    {
        cursor.bump();
        match parse_enum_shift(cursor) {
            Ok(v) => terms.push(v),
            Err(e) => return Err(e),
        }
    }
    Ok(terms)
}

/// Whether the value of `v`, if it has one, is sound.
spec fn variant_sound(v: ast::VariantView) -> bool {
    v.value matches Some(x) ==> x.sound()
}

fn parse_enum_variant(cursor: &mut Cursor) -> (r: Result<EnumVariant, DefParseError>)
    requires
        old(cursor)@.ready(),
    ensures
        moved(old(cursor)@, final(cursor)@, r is Ok),
        outcome(r, final(cursor)@) == grammar::enum_variant(old(cursor)@.tokens, old(cursor)@.pos),
        r matches Ok(v) ==> variant_sound(v@),
{
    let name = match cursor.expect_ident_spanned("identifier") {
        Ok(s) => s,
        Err(e) => return Err(e),
    };
    let value = if cursor.at(TokenKind::Eq) {
        cursor.bump();
        match parse_enum_expr(cursor) {
            Ok(e) => Some(e),
            Err(e) => return Err(e),
        }
    } else {
        None
    };
    Ok(EnumVariant { name, value })
}

fn parse_enum_variants(cursor: &mut Cursor) -> (r: Result<Vec<EnumVariant>, DefParseError>)
    requires
        old(cursor)@.ready(),
    ensures
        moved(old(cursor)@, final(cursor)@, false),
        listed(r, final(cursor)@) == grammar::enum_variants(
            old(cursor)@.tokens,
            old(cursor)@.pos,
            Seq::empty(),
        ),
        r matches Ok(v) ==> forall|i: int|
            0 <= i < v@.len() ==> variant_sound(#[trigger] base::views(v@)[i]),
{
    let ghost start = cursor@;
    let mut variants: Vec<EnumVariant> = Vec::new();
    loop
        invariant
            start == old(cursor)@,
            moved(start, cursor@, false),
            forall|i: int|
                0 <= i < variants@.len() ==> variant_sound(#[trigger] base::views(variants@)[i]),
            grammar::enum_variants(start.tokens, cursor@.pos, base::views(variants@))
                == grammar::enum_variants(start.tokens, start.pos, Seq::empty()),
        decreases cursor@.left(),
    {
        if cursor.at(TokenKind::Eof) {
            return Err(cursor.err(TextParseErrorKind::UnterminatedEnum));
        }
        if cursor.at(TokenKind::RBrace) {
            return Ok(variants);
        }
        let variant = match parse_enum_variant(cursor) {
            Ok(v) => v,
            Err(e) => return Err(e),
        };
        let has_value = variant.value.is_some();
        variants.push(variant);
        if cursor.at(TokenKind::Comma) {
            cursor.bump();
        } else if cursor.at(TokenKind::RBrace) {
            return Ok(variants);
        } else {
            // Reported here rather than by the caller's check for `}`, which
            // would claim that `}` was the only option.
            return Err(
                if has_value {
                    cursor.unexpected("`,` or `}`")
                } else {
                    cursor.unexpected("`=`, `,` or `}`")
                },
            );
        }
    }
}

fn parse_enum_body(cursor: &mut Cursor) -> (r: Result<EnumDecl, DefParseError>)
    requires
        old(cursor)@.ready(),
    ensures
        moved(old(cursor)@, final(cursor)@, false),
        outcome(r, final(cursor)@) == grammar::enum_body(old(cursor)@.tokens, old(cursor)@.pos),
        r matches Ok(e) ==> ast::ItemView::Enum(e@).sound(),
{
    // `enum` was read by the caller; anchor on it so an anonymous enum still
    // has something to point at.
    let keyword_span = cursor.prev_span();
    let name = if cursor.at(TokenKind::Ident) {
        match cursor.expect_ident_spanned("enum name") {
            Ok(s) => Some(s),
            Err(e) => return Err(e),
        }
    } else {
        None
    };
    let (label, span) = match &name {
        Some(n) => (Some(n.value.clone()), n.span),
        None => (None, keyword_span),
    };
    let ctx = ParseContext::new("enum", label, span);
    match cursor.expect(TokenKind::LBrace) {
        Ok(_) => {},
        Err(e) => return Err(e.within(&ctx)),
    }
    let variants = match parse_enum_variants(cursor) {
        Ok(v) => v,
        Err(e) => return Err(e.within(&ctx)),
    };
    match cursor.expect(TokenKind::RBrace) {
        Ok(_) => {},
        Err(e) => return Err(e.within(&ctx)),
    }
    cursor.skip(TokenKind::Semi);
    let decl = EnumDecl { name, variants };
    assert forall|i: int| 0 <= i < decl@.variants.len() implies ((#[trigger] decl@.variants[i]).value matches Some(
        x,
    ) ==> x.sound()) by {
        assert(variant_sound(base::views(variants@)[i]));
    }
    Ok(decl)
}

fn parse_define_body(cursor: &mut Cursor) -> (r: Result<Define, DefParseError>)
    requires
        old(cursor)@.ready(),
    ensures
        moved(old(cursor)@, final(cursor)@, r is Ok),
        outcome(r, final(cursor)@) == grammar::define_body(old(cursor)@.tokens, old(cursor)@.pos),
{
    let name = match cursor.expect_ident_spanned("identifier") {
        Ok(s) => s,
        Err(e) => return Err(e),
    };
    // `#define __FOO_H__` is a guard, not a malformed constant.
    if !cursor.at(TokenKind::Number) {
        return Ok(Define { name, value: None });
    }
    match parse_integer(cursor) {
        Ok(n) => Ok(Define { name, value: Some(n) }),
        Err(e) => Err(e),
    }
}

/// Whether a token of kind `kind` starts a declaration.
pub fn starts_declaration(kind: TokenKind) -> (r: bool)
    ensures
        r == grammar::starts_declaration(kind),
{
    match kind {
        TokenKind::Enum => true,
        TokenKind::Define => true,
        TokenKind::Namespace => true,
        TokenKind::Ifdef => true,
        TokenKind::Ifndef => true,
        TokenKind::Pragma => true,
        _ => false,
    }
}

/// Read one declaration: `enum`, `#define`, `namespace`, `#ifdef`, `#ifndef` or
/// `#pragma once`.
pub fn parse_declaration(cursor: &mut Cursor) -> (r: Result<Item, DefParseError>)
    requires
        old(cursor)@.ready(),
    ensures
        moved(old(cursor)@, final(cursor)@, r is Ok),
        outcome(r, final(cursor)@) == grammar::declaration(old(cursor)@.tokens, old(cursor)@.pos),
        r matches Ok(item) ==> item@.sound(),
    decreases old(cursor)@.left(), 0nat,
{
    let kind = cursor.kind();
    let item = match kind {
        TokenKind::Enum => {
            cursor.bump();
            match parse_enum_body(cursor) {
                Ok(e) => Item::Enum(e),
                Err(e) => return Err(e),
            }
        },
        TokenKind::Define => {
            cursor.bump();
            match parse_define_body(cursor) {
                Ok(d) => Item::Define(d),
                Err(e) => return Err(e),
            }
        },
        TokenKind::Namespace => {
            cursor.bump();
            return parse_namespace_body(cursor);
        },
        TokenKind::Ifdef => {
            cursor.bump();
            return parse_if_def_body(cursor, false);
        },
        TokenKind::Ifndef => {
            cursor.bump();
            return parse_if_def_body(cursor, true);
        },
        TokenKind::Pragma => {
            let span = cursor.span();
            cursor.bump();
            if cursor.at_ident("once") {
                cursor.bump();
            }
            Item::PragmaOnce(span)
        },
        _ => return Err(cursor.err(TextParseErrorKind::UnknownItem)),
    };
    proof {
        ast::lemma_item_view(item);
    }
    Ok(item)
}

fn parse_namespace_body(cursor: &mut Cursor) -> (r: Result<Item, DefParseError>)
    requires
        old(cursor)@.ready(),
    ensures
        moved(old(cursor)@, final(cursor)@, false),
        outcome(r, final(cursor)@) == grammar::namespace_body(
            old(cursor)@.tokens,
            old(cursor)@.pos,
        ),
        r matches Ok(item) ==> item@.sound(),
    decreases old(cursor)@.left(), 2nat,
{
    let name_span = cursor.span();
    let name = match cursor.expect_ident("identifier") {
        Ok(s) => s,
        Err(e) => return Err(e),
    };
    let ctx = ParseContext::new("namespace", Some(name.clone()), name_span);
    match cursor.expect(TokenKind::LBrace) {
        Ok(_) => {},
        Err(e) => return Err(e.within(&ctx)),
    }
    let items = match parse_namespace_items(cursor, &ctx) {
        Ok(v) => v,
        Err(e) => return Err(e),
    };
    match cursor.expect(TokenKind::RBrace) {
        Ok(_) => {},
        Err(e) => return Err(e.within(&ctx)),
    }
    cursor.skip(TokenKind::Semi);
    let item = Item::Namespace(Namespace { name, items });
    proof {
        ast::lemma_item_view(item);
    }
    Ok(item)
}

fn parse_namespace_items(cursor: &mut Cursor, ctx: &ParseContext) -> (r: Result<
    Vec<Item>,
    DefParseError,
>)
    requires
        old(cursor)@.ready(),
    ensures
        moved(old(cursor)@, final(cursor)@, false),
        listed(r, final(cursor)@) == grammar::namespace_items(
            old(cursor)@.tokens,
            old(cursor)@.pos,
            ctx@,
            Seq::empty(),
        ),
        r matches Ok(v) ==> ast::all_sound(base::views(v@)),
    decreases old(cursor)@.left(), 1nat,
{
    let ghost start = cursor@;
    let mut items: Vec<Item> = Vec::new();
    loop
        invariant
            start == old(cursor)@,
            moved(start, cursor@, false),
            ast::all_sound(base::views(items@)),
            grammar::namespace_items(start.tokens, cursor@.pos, ctx@, base::views(items@))
                == grammar::namespace_items(start.tokens, start.pos, ctx@, Seq::empty()),
        decreases cursor@.left(),
    {
        if cursor.at(TokenKind::Eof) {
            return Err(cursor.err(TextParseErrorKind::UnterminatedNamespace).within(ctx));
        }
        if cursor.at(TokenKind::RBrace) {
            return Ok(items);
        }
        match parse_declaration(cursor) {
            Ok(item) => items.push(item),
            Err(e) => return Err(e.within(ctx)),
        }
    }
}

fn parse_if_def_body(cursor: &mut Cursor, inverted: bool) -> (r: Result<Item, DefParseError>)
    requires
        old(cursor)@.ready(),
    ensures
        moved(old(cursor)@, final(cursor)@, false),
        outcome(r, final(cursor)@) == grammar::conditional_body(
            old(cursor)@.tokens,
            old(cursor)@.pos,
            inverted,
        ),
        r matches Ok(item) ==> item@.sound(),
    decreases old(cursor)@.left(), 2nat,
{
    let cond_span = cursor.span();
    let condition = match cursor.expect_ident("identifier") {
        Ok(s) => s,
        Err(e) => return Err(e),
    };
    let directive = if inverted {
        "#ifndef"
    } else {
        "#ifdef"
    };
    let ctx = ParseContext::new(directive, Some(condition.clone()), cond_span);
    let if_branch = match parse_branch(cursor, &ctx, true) {
        Ok(v) => v,
        Err(e) => return Err(e),
    };
    let else_branch = if cursor.at(TokenKind::Else) {
        cursor.bump();
        match parse_branch(cursor, &ctx, false) {
            Ok(v) => Some(v),
            Err(e) => return Err(e),
        }
    } else {
        None
    };
    match cursor.expect(TokenKind::Endif) {
        Ok(_) => {},
        Err(e) => return Err(e.within(&ctx)),
    }
    // `#endif __GUARD_NAME__` names the condition on the closer.
    cursor.skip(TokenKind::Ident);
    let item = Item::Conditional(IfDef { condition, if_branch, else_branch, inverted });
    proof {
        ast::lemma_item_view(item);
    }
    Ok(item)
}

fn parse_branch(cursor: &mut Cursor, ctx: &ParseContext, stop_at_else: bool) -> (r: Result<
    Vec<Item>,
    DefParseError,
>)
    requires
        old(cursor)@.ready(),
    ensures
        moved(old(cursor)@, final(cursor)@, false),
        listed(r, final(cursor)@) == grammar::branch(
            old(cursor)@.tokens,
            old(cursor)@.pos,
            ctx@,
            stop_at_else,
            Seq::empty(),
        ),
        r matches Ok(v) ==> ast::all_sound(base::views(v@)),
    decreases old(cursor)@.left(), 1nat,
{
    let ghost start = cursor@;
    let mut items: Vec<Item> = Vec::new();
    loop
        invariant
            start == old(cursor)@,
            moved(start, cursor@, false),
            ast::all_sound(base::views(items@)),
            grammar::branch(start.tokens, cursor@.pos, ctx@, stop_at_else, base::views(items@))
                == grammar::branch(start.tokens, start.pos, ctx@, stop_at_else, Seq::empty()),
        decreases cursor@.left(),
    {
        if cursor.at(TokenKind::Eof) {
            return Err(cursor.err(TextParseErrorKind::UnterminatedIfDef).within(ctx));
        }
        if cursor.at(TokenKind::Endif) || (stop_at_else && cursor.at(TokenKind::Else)) {
            return Ok(items);
        }
        match parse_declaration(cursor) {
            Ok(item) => items.push(item),
            Err(e) => return Err(e.within(ctx)),
        }
    }
}

// ── Files ────────────────────────────────────────────────────────────────────

fn starts_item(kind: TokenKind) -> (r: bool)
    ensures
        r == grammar::starts_item(kind),
{
    match kind {
        TokenKind::Eof => true,
        TokenKind::Definition => true,
        TokenKind::DefinitionTemplate => true,
        _ => starts_declaration(kind),
    }
}

/// Step over a run of tokens that start no item, and give its span.
fn skip_junk(cursor: &mut Cursor) -> (r: Span)
    requires
        old(cursor)@.ready(),
        !grammar::starts_item(grammar::kind(old(cursor)@.tokens, old(cursor)@.pos)),
    ensures
        moved(old(cursor)@, final(cursor)@, true),
        final(cursor)@.pos == grammar::junk_end(old(cursor)@.tokens, old(cursor)@.pos + 1),
        r == grammar::span_between(old(cursor)@.tokens, old(cursor)@.pos, final(cursor)@.pos),
{
    let ghost start = cursor@;
    let from = cursor.span().start;
    cursor.bump();
    while !starts_item(cursor.kind())
        invariant
            start == old(cursor)@,
            moved(start, cursor@, true),
            grammar::junk_end(start.tokens, cursor@.pos) == grammar::junk_end(
                start.tokens,
                start.pos + 1,
            ),
        decreases cursor@.left(),
    {
        cursor.bump();
    }
    cursor.span_from(from)
}

/// The one top-level loop, for every kind of file.
fn parse_file(cursor: &mut Cursor) -> (r: Result<SourceAst, DefParseError>)
    requires
        old(cursor)@.ready(),
    ensures
        moved(old(cursor)@, final(cursor)@, false),
        (match r {
            Ok(f) => Ok(f@),
            Err(e) => Err(e@),
        }) == grammar::items(
            old(cursor)@.tokens,
            old(cursor)@.pos,
            Seq::empty(),
            Seq::empty(),
        ),
        r matches Ok(f) ==> ast::all_sound(f@.items),
{
    let ghost start = cursor@;
    let mut items: Vec<Item> = Vec::new();
    let mut ignored: Vec<Span> = Vec::new();
    assert(ignored@ == Seq::<Span>::empty());
    loop
        invariant
            start == old(cursor)@,
            moved(start, cursor@, false),
            ast::all_sound(base::views(items@)),
            grammar::items(start.tokens, cursor@.pos, base::views(items@), ignored@)
                == grammar::items(start.tokens, start.pos, Seq::empty(), Seq::empty()),
        decreases cursor@.left(),
    {
        let kind = cursor.kind();
        if kind == TokenKind::Eof {
            return Ok(SourceAst { items, ignored });
        }
        if kind == TokenKind::Definition || kind == TokenKind::DefinitionTemplate {
            match parse_definition(cursor) {
                Ok(d) => {
                    let item = Item::Definition(d);
                    proof {
                        ast::lemma_item_view(item);
                    }
                    items.push(item);
                },
                Err(e) => return Err(e),
            }
        } else if starts_declaration(kind) {
            match parse_declaration(cursor) {
                Ok(item) => items.push(item),
                Err(e) => return Err(e),
            }
        } else {
            ignored.push(skip_junk(cursor));
        }
    }
}

/// Parse any definition or header file.
///
/// There is one grammar. What kind a file is decides where its contents are
/// used, never how it is parsed.
pub fn parse_source(input: &str, file: FileId) -> (r: Result<SourceAst, DefParseError>)
    ensures
        (match r {
            Ok(f) => Ok(f@),
            Err(e) => Err(e@),
        }) == grammar::source(input@, file),
        r matches Ok(f) ==> ast::all_sound(f@.items),
{
    match lex(input, file) {
        Ok(tokens) => {
            let mut cursor = Cursor::new(tokens);
            parse_file(&mut cursor)
        },
        Err(e) => {
            let (span, kind) = lex_error_to_parse_error(e);
            Err(ParseError::new(span, kind))
        },
    }
}

/// Parse one expression from `input`.
pub fn parse_expr_str(input: &str) -> (r: Result<Spanned<Expr>, DefParseError>)
    ensures
        (match r {
            Ok(e) => Ok(e@),
            Err(e) => Err(e@),
        }) == grammar::expression(input@),
{
    match lex(input, FileId::anonymous()) {
        Ok(tokens) => {
            let mut cursor = Cursor::new(tokens);
            parse_expr(&mut cursor)
        },
        Err(e) => {
            let (span, kind) = lex_error_to_parse_error(e);
            Err(ParseError::new(span, kind))
        },
    }
}

} // verus!
