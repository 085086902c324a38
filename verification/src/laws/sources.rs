//! Sources as they are read: what stands in a file comes back, in the order in which it
//! stands there.

use vstd::prelude::*;

use crate::text::ast::{
    DefinitionView, ExprView, ItemView, SegmentView, StatementView, VariantView,
};
use crate::text::base::{ContextView, Span, Spanned};
use crate::text::grammar;
use crate::text::lexer::{TokenKind, TokenView};

verus! {

/// Whether `v` is `acc` and something behind it.
pub open spec fn goes_on<T>(v: Seq<T>, acc: Seq<T>) -> bool {
    acc.len() <= v.len() && forall|i: int| 0 <= i < acc.len() ==> #[trigger] v[i] == acc[i]
}

proof fn lemma_goes_on<T>(v: Seq<T>, acc: Seq<T>, x: T)
    requires
        goes_on(v, acc.push(x)),
    ensures
        goes_on(v, acc),
        acc.len() < v.len(),
        v[acc.len() as int] == x,
{
    assert forall|i: int| 0 <= i < acc.len() implies #[trigger] v[i] == acc[i] by {
        assert(acc.push(x)[i] == acc[i]);
    }
    assert(acc.push(x)[acc.len() as int] == x);
}

// ── Definitions ──────────────────────────────────────────────────────────────

proof fn lemma_body(
    t: Seq<TokenView>,
    p: int,
    ctx: ContextView,
    acc: Seq<Spanned<StatementView>>,
)
    ensures
        grammar::body(t, p, ctx, acc) matches Ok((v, q)) ==> goes_on(v, acc),
    decreases grammar::left(t, p),
{
    if grammar::kind(t, p) != TokenKind::EndDefinition && !grammar::ends_body(
        grammar::kind(t, p),
    ) {
        if let Ok((s, q)) = grammar::statement(t, p) {
            lemma_body(t, grammar::past(p, q), ctx, acc.push(s));
            if let Ok((v, r)) = grammar::body(t, grammar::past(p, q), ctx, acc.push(s)) {
                lemma_goes_on(v, acc, s);
            }
        }
    }
}

/// A definition has its class and its name from the two words behind `#definition`, is a
/// template behind `#definition_template`, and names a parent behind `specialises`.
pub proof fn a_definition_is_read(t: Seq<TokenView>, p: int, d: Spanned<DefinitionView>, q: int)
    requires
        grammar::definition(t, p) == Ok::<(Spanned<DefinitionView>, int), grammar::TextError>(
            (d, q),
        ),
    ensures
        grammar::kind(t, p) == TokenKind::Definition || grammar::kind(t, p)
            == TokenKind::DefinitionTemplate,
        d.value.is_template <==> grammar::kind(t, p) == TokenKind::DefinitionTemplate,
        d.value.def_type == grammar::at(t, p + 1).source,
        d.value.name == grammar::at(t, p + 2).source,
        grammar::word_at(t, p + 3, "specialises"@) ==> d.value.specializes == Some(
            grammar::at(t, p + 4).source,
        ),
        !grammar::word_at(t, p + 3, "specialises"@) ==> d.value.specializes is None,
{
}

/// The first statement of a body is the one that stands first, and the others follow it.
pub proof fn statements_are_read_in_order(
    t: Seq<TokenView>,
    p: int,
    ctx: ContextView,
    acc: Seq<Spanned<StatementView>>,
)
    ensures
        grammar::body(t, p, ctx, acc) matches Ok((v, q)) ==> goes_on(v, acc),
        grammar::body(t, p, ctx, acc) matches Ok((v, q)) ==> if grammar::kind(t, p)
            == TokenKind::EndDefinition {
            v == acc
        } else {
            grammar::statement(t, p) matches Ok((s, _)) && acc.len() < v.len()
                && v[acc.len() as int] == s
        },
{
    lemma_body(t, p, ctx, acc);
    if let Ok((s, q)) = grammar::statement(t, p) {
        lemma_body(t, grammar::past(p, q), ctx, acc.push(s));
        if let Ok((v, r)) = grammar::body(t, grammar::past(p, q), ctx, acc.push(s)) {
            lemma_goes_on(v, acc, s);
        }
    }
}

proof fn lemma_tagged(
    t: Seq<TokenView>,
    p: int,
    tag: Seq<char>,
    ctx: ContextView,
    acc: Seq<Spanned<StatementView>>,
)
    ensures
        grammar::tagged_body(t, p, tag, ctx, acc) matches Ok((v, q)) ==> goes_on(v, acc),
    decreases grammar::left(t, p),
{
    let closes = grammar::kind(t, p) == TokenKind::Lt && grammar::kind(t, p + 1)
        == TokenKind::Backslash;
    if !closes && !grammar::ends_body(grammar::kind(t, p)) && grammar::kind(t, p)
        != TokenKind::EndDefinition {
        if let Ok((s, q)) = grammar::statement(t, p) {
            lemma_tagged(t, grammar::past(p, q), tag, ctx, acc.push(s));
            if let Ok((v, r)) = grammar::tagged_body(
                t,
                grammar::past(p, q),
                tag,
                ctx,
                acc.push(s),
            ) {
                lemma_goes_on(v, acc, s);
            }
        }
    }
}

/// So it is in a block, which ends where its tag is closed.
pub proof fn the_statements_of_a_block_are_read_in_order(
    t: Seq<TokenView>,
    p: int,
    tag: Seq<char>,
    ctx: ContextView,
    acc: Seq<Spanned<StatementView>>,
)
    ensures
        grammar::tagged_body(t, p, tag, ctx, acc) matches Ok((v, q)) ==> goes_on(v, acc),
        grammar::tagged_body(t, p, tag, ctx, acc) matches Ok((v, q)) ==> if grammar::kind(t, p)
            == TokenKind::Lt && grammar::kind(t, p + 1) == TokenKind::Backslash {
            v == acc && grammar::at(t, p + 2).source == tag && q == p + 4
        } else {
            grammar::statement(t, p) matches Ok((s, _)) && acc.len() < v.len()
                && v[acc.len() as int] == s
        },
{
    lemma_tagged(t, p, tag, ctx, acc);
    if let Ok((s, q)) = grammar::statement(t, p) {
        lemma_tagged(t, grammar::past(p, q), tag, ctx, acc.push(s));
        if let Ok((v, r)) = grammar::tagged_body(t, grammar::past(p, q), tag, ctx, acc.push(s)) {
            lemma_goes_on(v, acc, s);
        }
    }
}

// ── Statements ───────────────────────────────────────────────────────────────

proof fn lemma_path(t: Seq<TokenView>, p: int, acc: Seq<SegmentView>)
    ensures
        grammar::path_rest(t, p, acc) matches Ok((v, q)) ==> goes_on(v, acc),
    decreases grammar::left(t, p),
{
    if grammar::kind(t, p) == TokenKind::Dot {
        if let Ok((name, q)) = grammar::ident(t, p + 1, "field name"@) {
            let s = SegmentView::Field(name);
            lemma_path(t, q, acc.push(s));
            if let Ok((v, r)) = grammar::path_rest(t, q, acc.push(s)) {
                lemma_goes_on(v, acc, s);
            }
        }
    } else if grammar::kind(t, p) == TokenKind::LBracket {
        if let Ok((index, q)) = grammar::expr(t, p + 1) {
            if let Ok((_, r)) = grammar::expect(t, q, TokenKind::RBracket) {
                let s = SegmentView::Index(index);
                lemma_path(t, grammar::past(p, r), acc.push(s));
                if let Ok((v, w)) = grammar::path_rest(t, grammar::past(p, r), acc.push(s)) {
                    lemma_goes_on(v, acc, s);
                }
            }
        }
    }
}

/// A path begins with its first name and goes on with the names behind dots and the indices
/// in brackets.
pub proof fn paths_are_read_in_order(t: Seq<TokenView>, p: int, acc: Seq<SegmentView>)
    ensures
        grammar::path(t, p) matches Ok((v, q)) ==> v.len() > 0 && v[0] == SegmentView::Field(
            grammar::at(t, p).source,
        ),
        grammar::path_rest(t, p, acc) matches Ok((v, q)) ==> {
            &&& goes_on(v, acc)
            &&& grammar::kind(t, p) == TokenKind::Dot ==> acc.len() < v.len()
                && v[acc.len() as int] == SegmentView::Field(grammar::at(t, p + 1).source)
            &&& grammar::kind(t, p) == TokenKind::LBracket ==> (grammar::expr(t, p + 1) matches Ok(
                (e, _),
            ) && acc.len() < v.len() && v[acc.len() as int] == SegmentView::Index(e))
            &&& grammar::kind(t, p) != TokenKind::Dot && grammar::kind(t, p)
                != TokenKind::LBracket ==> v == acc && q == p
        },
{
    let none = Seq::<SegmentView>::empty();
    if let Ok((name, q)) = grammar::ident(t, p, "field name"@) {
        let s = SegmentView::Field(name);
        assert(none.push(s) =~= seq![s]);
        lemma_path(t, q, none.push(s));
        if let Ok((v, r)) = grammar::path_rest(t, q, none.push(s)) {
            lemma_goes_on(v, none, s);
        }
    }
    lemma_path(t, p, acc);
    if grammar::kind(t, p) == TokenKind::Dot {
        if let Ok((name, q)) = grammar::ident(t, p + 1, "field name"@) {
            let s = SegmentView::Field(name);
            lemma_path(t, q, acc.push(s));
            if let Ok((v, r)) = grammar::path_rest(t, q, acc.push(s)) {
                lemma_goes_on(v, acc, s);
            }
        }
    } else if grammar::kind(t, p) == TokenKind::LBracket {
        if let Ok((index, q)) = grammar::expr(t, p + 1) {
            if let Ok((_, r)) = grammar::expect(t, q, TokenKind::RBracket) {
                let s = SegmentView::Index(index);
                lemma_path(t, grammar::past(p, r), acc.push(s));
                if let Ok((v, w)) = grammar::path_rest(t, grammar::past(p, r), acc.push(s)) {
                    lemma_goes_on(v, acc, s);
                }
            }
        }
    }
}

/// A path with an expression behind it is an assignment; one with arguments behind it is a
/// call of its last name on what stands before it.
pub proof fn assignments_and_calls_are_told_apart(
    t: Seq<TokenView>,
    p: int,
    segments: Seq<SegmentView>,
    q: int,
    s: Spanned<StatementView>,
    end: int,
)
    requires
        grammar::kind(t, p) != TokenKind::Lt,
        grammar::path(t, p) == Ok::<(Seq<SegmentView>, int), grammar::TextError>((segments, q)),
        grammar::statement(t, p) == Ok::<(Spanned<StatementView>, int), grammar::TextError>(
            (s, end),
        ),
    ensures
        grammar::kind(t, q) != TokenKind::LParen ==> (s.value matches StatementView::Field {
            path,
            expr,
        } && path == segments && (grammar::expr(t, q) matches Ok((e, _)) && expr == e)),
        grammar::kind(t, q) == TokenKind::LParen ==> (s.value matches StatementView::MethodCall {
            object,
            call,
        } && object == segments.drop_last() && segments.last() == SegmentView::Field(call.name)
            && (grammar::arguments(t, q + 1) matches Ok((v, _)) && call.arguments == v)),
{
}

proof fn lemma_arguments(t: Seq<TokenView>, p: int, acc: Seq<Spanned<ExprView>>)
    ensures
        grammar::arguments_from(t, p, acc) matches Ok((v, q)) ==> goes_on(v, acc) && (
        grammar::expr(t, p) matches Ok((e, _)) && acc.len() < v.len() && v[acc.len() as int] == e),
    decreases grammar::left(t, p),
{
    if let Ok((arg, q)) = grammar::expr(t, p) {
        if grammar::kind(t, q) == TokenKind::Comma && p < t.len() {
            lemma_arguments(t, grammar::past(p, q + 1), acc.push(arg));
            if let Ok((v, r)) = grammar::arguments_from(
                t,
                grammar::past(p, q + 1),
                acc.push(arg),
            ) {
                lemma_goes_on(v, acc, arg);
            }
        } else {
            lemma_goes_on(acc.push(arg), acc, arg);
        }
    }
}

/// Arguments come in the order in which they stand; `()` has none.
pub proof fn arguments_are_read_in_order(t: Seq<TokenView>, p: int, acc: Seq<Spanned<ExprView>>)
    ensures
        grammar::arguments_from(t, p, acc) matches Ok((v, q)) ==> goes_on(v, acc) && (
        grammar::expr(t, p) matches Ok((e, _)) && acc.len() < v.len() && v[acc.len() as int] == e),
        grammar::kind(t, p) == TokenKind::RParen ==> (grammar::arguments(t, p) matches Ok((v, q))
            && v.len() == 0),
        grammar::kind(t, p) != TokenKind::RParen ==> (grammar::arguments(t, p) matches Ok((v, q))
            ==> (grammar::expr(t, p) matches Ok((e, _)) && 0 < v.len() && v[0] == e)),
{
    lemma_arguments(t, p, acc);
    lemma_arguments(t, p, Seq::empty());
}

// ── Declarations ─────────────────────────────────────────────────────────────

proof fn lemma_variants(t: Seq<TokenView>, p: int, acc: Seq<VariantView>)
    ensures
        grammar::enum_variants(t, p, acc) matches Ok((v, q)) ==> goes_on(v, acc) && (
        grammar::kind(t, p) != TokenKind::RBrace ==> (grammar::enum_variant(t, p) matches Ok((x, _))
            && acc.len() < v.len() && v[acc.len() as int] == x)),
    decreases grammar::left(t, p),
{
    if grammar::kind(t, p) != TokenKind::Eof && grammar::kind(t, p) != TokenKind::RBrace {
        if let Ok((x, q)) = grammar::enum_variant(t, p) {
            if grammar::kind(t, q) == TokenKind::Comma {
                lemma_variants(t, grammar::past(p, q + 1), acc.push(x));
                if let Ok((v, r)) = grammar::enum_variants(
                    t,
                    grammar::past(p, q + 1),
                    acc.push(x),
                ) {
                    lemma_goes_on(v, acc, x);
                }
            } else {
                lemma_goes_on(acc.push(x), acc, x);
            }
        }
    }
}

/// The variants of an enum come in the order in which they stand, each with its name, and
/// with its value where it has one.
pub proof fn variants_are_read_in_order(t: Seq<TokenView>, p: int, acc: Seq<VariantView>)
    ensures
        grammar::enum_variants(t, p, acc) matches Ok((v, q)) ==> goes_on(v, acc) && (
        grammar::kind(t, p) != TokenKind::RBrace ==> (grammar::enum_variant(t, p) matches Ok((x, _))
            && acc.len() < v.len() && v[acc.len() as int] == x)),
        grammar::enum_variant(t, p) matches Ok((x, q)) ==> x.name.value == grammar::at(t, p).source
            && (x.value is Some <==> grammar::kind(t, p + 1) == TokenKind::Eq) && (x.value
            matches Some(e) ==> (grammar::enum_expr(t, p + 2) matches Ok((y, _)) && e == y)),
{
    lemma_variants(t, p, acc);
}

proof fn lemma_namespace(t: Seq<TokenView>, p: int, ctx: ContextView, acc: Seq<ItemView>)
    ensures
        grammar::namespace_items(t, p, ctx, acc) matches Ok((v, q)) ==> goes_on(v, acc) && (
        grammar::kind(t, p) != TokenKind::RBrace ==> (grammar::declaration(t, p) matches Ok((x, _))
            && acc.len() < v.len() && v[acc.len() as int] == x)),
    decreases grammar::left(t, p),
{
    if grammar::kind(t, p) != TokenKind::Eof && grammar::kind(t, p) != TokenKind::RBrace {
        if let Ok((x, q)) = grammar::declaration(t, p) {
            lemma_namespace(t, grammar::past(p, q), ctx, acc.push(x));
            if let Ok((v, r)) = grammar::namespace_items(
                t,
                grammar::past(p, q),
                ctx,
                acc.push(x),
            ) {
                lemma_goes_on(v, acc, x);
            }
        }
    }
}

proof fn lemma_branch(
    t: Seq<TokenView>,
    p: int,
    ctx: ContextView,
    stop_at_else: bool,
    acc: Seq<ItemView>,
)
    ensures
        grammar::branch(t, p, ctx, stop_at_else, acc) matches Ok((v, q)) ==> {
            &&& goes_on(v, acc)
            &&& grammar::kind(t, q) == TokenKind::Endif || (stop_at_else && grammar::kind(t, q)
                == TokenKind::Else)
            &&& grammar::kind(t, p) == TokenKind::Endif || (stop_at_else && grammar::kind(t, p)
                == TokenKind::Else) || (grammar::declaration(t, p) matches Ok((x, _)) && acc.len()
                < v.len() && v[acc.len() as int] == x)
        },
    decreases grammar::left(t, p),
{
    let ends = grammar::kind(t, p) == TokenKind::Endif || (stop_at_else && grammar::kind(t, p)
        == TokenKind::Else);
    if grammar::kind(t, p) != TokenKind::Eof && !ends {
        if let Ok((x, q)) = grammar::declaration(t, p) {
            lemma_branch(t, grammar::past(p, q), ctx, stop_at_else, acc.push(x));
            if let Ok((v, r)) = grammar::branch(
                t,
                grammar::past(p, q),
                ctx,
                stop_at_else,
                acc.push(x),
            ) {
                lemma_goes_on(v, acc, x);
            }
        }
    }
}

/// The declarations of a namespace and of a branch come in the order in which they stand; a
/// branch goes up to `#endif`, the first also up to `#else`.
pub proof fn declarations_are_read_in_order(
    t: Seq<TokenView>,
    p: int,
    ctx: ContextView,
    stop_at_else: bool,
    acc: Seq<ItemView>,
)
    ensures
        grammar::namespace_items(t, p, ctx, acc) matches Ok((v, q)) ==> goes_on(v, acc) && (
        grammar::kind(t, p) != TokenKind::RBrace ==> (grammar::declaration(t, p) matches Ok((x, _))
            && acc.len() < v.len() && v[acc.len() as int] == x)),
        grammar::branch(t, p, ctx, stop_at_else, acc) matches Ok((v, q)) ==> {
            &&& goes_on(v, acc)
            &&& grammar::kind(t, q) == TokenKind::Endif || (stop_at_else && grammar::kind(t, q)
                == TokenKind::Else)
            &&& grammar::kind(t, p) == TokenKind::Endif || (stop_at_else && grammar::kind(t, p)
                == TokenKind::Else) || (grammar::declaration(t, p) matches Ok((x, _)) && acc.len()
                < v.len() && v[acc.len() as int] == x)
        },
{
    lemma_namespace(t, p, ctx, acc);
    lemma_branch(t, p, ctx, stop_at_else, acc);
}

/// `#ifndef` is `#ifdef` the other way round, and each has the condition behind it.
pub proof fn conditionals_are_told_apart(t: Seq<TokenView>, p: int, x: ItemView, q: int)
    requires
        grammar::kind(t, p) == TokenKind::Ifdef || grammar::kind(t, p) == TokenKind::Ifndef,
        grammar::declaration(t, p) == Ok::<(ItemView, int), grammar::TextError>((x, q)),
    ensures
        x matches ItemView::Conditional { condition, inverted, .. } && condition == grammar::at(
            t,
            p + 1,
        ).source && inverted == (grammar::kind(t, p) == TokenKind::Ifndef),
{
}

/// `#define` has its name behind it, and its value where a number follows.
pub proof fn defines_are_read(t: Seq<TokenView>, p: int, x: ItemView, q: int)
    requires
        grammar::kind(t, p) == TokenKind::Define,
        grammar::declaration(t, p) == Ok::<(ItemView, int), grammar::TextError>((x, q)),
    ensures
        x matches ItemView::Define(d) && d.name.value == grammar::at(t, p + 1).source && (
        d.value is Some <==> grammar::kind(t, p + 2) == TokenKind::Number) && (d.value
            matches Some(n) ==> (grammar::integer(t, p + 2) matches Ok((m, _)) && n == m)),
{
}

// ── Files ────────────────────────────────────────────────────────────────────

proof fn lemma_items(t: Seq<TokenView>, p: int, acc: Seq<ItemView>, ignored: Seq<Span>)
    ensures
        grammar::items(t, p, acc, ignored) matches Ok(s) ==> goes_on(s.items, acc) && goes_on(
            s.ignored,
            ignored,
        ),
    decreases grammar::left(t, p),
{
    let k = grammar::kind(t, p);
    if k == TokenKind::Eof {
    } else if k == TokenKind::Definition || k == TokenKind::DefinitionTemplate {
        if let Ok((d, q)) = grammar::definition(t, p) {
            let x = ItemView::Definition(d);
            lemma_items(t, grammar::past(p, q), acc.push(x), ignored);
            if let Ok(s) = grammar::items(t, grammar::past(p, q), acc.push(x), ignored) {
                lemma_goes_on(s.items, acc, x);
            }
        }
    } else if grammar::starts_declaration(k) {
        if let Ok((x, q)) = grammar::declaration(t, p) {
            lemma_items(t, grammar::past(p, q), acc.push(x), ignored);
            if let Ok(s) = grammar::items(t, grammar::past(p, q), acc.push(x), ignored) {
                lemma_goes_on(s.items, acc, x);
            }
        }
    } else {
        let q = grammar::junk_end(t, p + 1);
        let span = grammar::span_between(t, p, q);
        lemma_items(t, grammar::past(p, q), acc, ignored.push(span));
        if let Ok(s) = grammar::items(t, grammar::past(p, q), acc, ignored.push(span)) {
            lemma_goes_on(s.ignored, ignored, span);
        }
    }
}

/// The items of a file come in the order in which they stand: a definition where one begins,
/// and a declaration where one does.
pub proof fn items_are_read_in_order(
    t: Seq<TokenView>,
    p: int,
    acc: Seq<ItemView>,
    ignored: Seq<Span>,
)
    ensures
        grammar::items(t, p, acc, ignored) matches Ok(s) ==> {
            let k = grammar::kind(t, p);
            &&& goes_on(s.items, acc)
            &&& goes_on(s.ignored, ignored)
            &&& k == TokenKind::Definition || k == TokenKind::DefinitionTemplate ==> (
            grammar::definition(t, p) matches Ok((d, _)) && acc.len() < s.items.len()
                && s.items[acc.len() as int] == ItemView::Definition(d))
            &&& grammar::starts_declaration(k) ==> (grammar::declaration(t, p) matches Ok((x, _))
                && acc.len() < s.items.len() && s.items[acc.len() as int] == x)
            &&& !grammar::starts_item(k) ==> ignored.len() < s.ignored.len()
        },
{
    lemma_items(t, p, acc, ignored);
    let k = grammar::kind(t, p);
    if k == TokenKind::Definition || k == TokenKind::DefinitionTemplate {
        if let Ok((d, q)) = grammar::definition(t, p) {
            let x = ItemView::Definition(d);
            lemma_items(t, grammar::past(p, q), acc.push(x), ignored);
            if let Ok(s) = grammar::items(t, grammar::past(p, q), acc.push(x), ignored) {
                lemma_goes_on(s.items, acc, x);
            }
        }
    } else if grammar::starts_declaration(k) {
        if let Ok((x, q)) = grammar::declaration(t, p) {
            lemma_items(t, grammar::past(p, q), acc.push(x), ignored);
            if let Ok(s) = grammar::items(t, grammar::past(p, q), acc.push(x), ignored) {
                lemma_goes_on(s.items, acc, x);
            }
        }
    } else if k != TokenKind::Eof {
        let q = grammar::junk_end(t, p + 1);
        let span = grammar::span_between(t, p, q);
        lemma_items(t, grammar::past(p, q), acc, ignored.push(span));
        if let Ok(s) = grammar::items(t, grammar::past(p, q), acc, ignored.push(span)) {
            lemma_goes_on(s.ignored, ignored, span);
        }
    }
}

} // verus!
