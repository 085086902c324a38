//! The source form of an expression, read again: it gives the same tree.

use vstd::prelude::*;

use crate::strings;
use crate::text::ast;
use crate::text::ast::{CallView, ExprView};
use crate::text::base::{FileId, Spanned};
use crate::text::grammar;
use crate::text::lexer;
use crate::text::lexer::{CharClass, Scan, TokenKind, TokenView};

verus! {

// ── Trees ────────────────────────────────────────────────────────────────────

/// Whether two expressions are the same but for their places.
pub open spec fn same_tree(a: ExprView, b: ExprView) -> bool
    decreases a, 0nat,
{
    match a {
        ExprView::Constructor(c) => match b {
            ExprView::Constructor(d) => c.name == d.name && same_trees(
                c.arguments,
                d.arguments,
                c.arguments.len() as int,
            ) && c.arguments.len() == d.arguments.len(),
            _ => false,
        },
        ExprView::BitOr(v) => match b {
            ExprView::BitOr(w) => v.len() == w.len() && same_trees(v, w, v.len() as int),
            _ => false,
        },
        ExprView::Add(v) => match b {
            ExprView::Add(w) => v.len() == w.len() && same_trees(v, w, v.len() as int),
            _ => false,
        },
        _ => a == b,
    }
}

/// Whether the first `k` of some expressions are the same but for their places.
pub open spec fn same_trees(a: Seq<Spanned<ExprView>>, b: Seq<Spanned<ExprView>>, k: int) -> bool
    decreases a, k,
{
    if k <= 0 {
        true
    } else {
        k <= a.len() && k <= b.len() && same_trees(a, b, k - 1) && same_tree(
            a[k - 1].value,
            b[k - 1].value,
        )
    }
}

/// Whether a token of a kind can have a text.
spec fn fits(kind: TokenKind, s: Seq<char>) -> bool {
    match kind {
        TokenKind::Number => {
            &&& s.len() > 0
            &&& lexer::number_end(s, 0) == s.len()
            &&& strings::is_digit(s[0]) || (s[0] == '-' && s.len() > 1 && strings::is_digit(s[1]))
        },
        TokenKind::Str => {
            &&& s.len() >= 2
            &&& s[0] == '"'
            &&& s.last() == '"'
            &&& forall|i: int| 0 < i < s.len() - 1 ==> CharClass::Quoted.has(#[trigger] s[i])
        },
        TokenKind::Ident => is_name(s),
        _ => true,
    }
}

spec fn is_name(s: Seq<char>) -> bool {
    &&& s.len() > 0
    &&& !strings::is_digit(s[0])
    &&& forall|i: int| 0 <= i < s.len() ==> CharClass::Word.has(#[trigger] s[i])
    &&& lexer::word_kind(s) == TokenKind::Ident
}

spec fn is_bool_word(s: Seq<char>) -> bool {
    s == "TRUE"@ || s == "BTRUE"@ || s == "FALSE"@ || s == "BFALSE"@
}

/// Whether an expression is one that a text can give.
spec fn shaped(e: ExprView) -> bool
    decreases e, 0nat,
{
    match e {
        ExprView::Number(s) => fits(TokenKind::Number, s),
        ExprView::Bool(_) => true,
        ExprView::String(s) => fits(TokenKind::Str, "\""@ + s + "\""@),
        ExprView::Symbol(s) => is_name(s) && !is_bool_word(s),
        ExprView::Constructor(c) => is_name(c.name) && !is_bool_word(c.name) && all_shaped(
            c.arguments,
            2,
            c.arguments.len() as int,
        ),
        ExprView::BitOr(v) => v.len() >= 2 && all_shaped(v, 1, v.len() as int),
        ExprView::Add(v) => v.len() >= 2 && all_shaped(v, 0, v.len() as int),
    }
}

/// How deep an expression binds: 0 for a leaf, 1 for a sum, 2 for anything.
spec fn level(e: ExprView) -> int {
    if e is BitOr {
        2
    } else if e is Add {
        1
    } else {
        0
    }
}

spec fn all_shaped(v: Seq<Spanned<ExprView>>, most: int, k: int) -> bool
    decreases v, k,
{
    if k <= 0 {
        true
    } else {
        k <= v.len() && all_shaped(v, most, k - 1) && shaped(v[k - 1].value) && level(
            v[k - 1].value,
        ) <= most
    }
}

proof fn lemma_shaped_at(v: Seq<Spanned<ExprView>>, most: int, k: int, i: int)
    requires
        all_shaped(v, most, k),
        0 <= i < k,
    ensures
        i < v.len(),
        shaped(v[i].value),
        level(v[i].value) <= most,
    decreases k,
{
    if i < k - 1 {
        lemma_shaped_at(v, most, k - 1, i);
    }
}

proof fn lemma_shaped_push(
    v: Seq<Spanned<ExprView>>,
    e: Spanned<ExprView>,
    most: int,
    k: int,
)
    requires
        all_shaped(v, most, k),
        k <= v.len(),
    ensures
        all_shaped(v.push(e), most, k),
    decreases k,
{
    if k > 0 {
        lemma_shaped_push(v, e, most, k - 1);
        assert(v.push(e)[k - 1] == v[k - 1]);
    }
}

proof fn lemma_same_push(
    v: Seq<Spanned<ExprView>>,
    w: Seq<Spanned<ExprView>>,
    e: Spanned<ExprView>,
    k: int,
)
    requires
        same_trees(v, w, k),
        k <= w.len(),
    ensures
        same_trees(v, w.push(e), k),
    decreases k,
{
    if k > 0 {
        lemma_same_push(v, w, e, k - 1);
        assert(w.push(e)[k - 1] == w[k - 1]);
    }
}

// ── What tokens look like ────────────────────────────────────────────────────

spec fn all_fit(t: Seq<TokenView>) -> bool {
    forall|i: int| 0 <= i < t.len() ==> fits((#[trigger] t[i]).kind, t[i].source)
}

/// A run ends where the first character stands that is not of its class.
proof fn lemma_run(chars: Seq<char>, i: int, j: int, class: CharClass)
    requires
        0 <= i <= j <= chars.len(),
        forall|k: int| i <= k < j ==> class.has(#[trigger] chars[k]),
        j < chars.len() ==> !class.has(chars[j]),
    ensures
        lexer::run_end(chars, i, class) == j,
    decreases j - i,
{
    if i < j {
        assert(class.has(chars[i]));
        lemma_run(chars, i + 1, j, class);
    }
}

/// What is in a run is of its class, and what stands behind is not.
proof fn lemma_run_holds(chars: Seq<char>, i: int, class: CharClass)
    requires
        0 <= i <= chars.len(),
    ensures
        i <= lexer::run_end(chars, i, class) <= chars.len(),
        forall|k: int|
            i <= k < lexer::run_end(chars, i, class) ==> class.has(#[trigger] chars[k]),
        lexer::run_end(chars, i, class) < chars.len() ==> !class.has(
            chars[lexer::run_end(chars, i, class)],
        ),
    decreases chars.len() - i,
{
    if i < chars.len() && class.has(chars[i]) {
        lemma_run_holds(chars, i + 1, class);
    }
}

/// A run within a part of a text that ends no earlier than the run.
proof fn lemma_run_within(chars: Seq<char>, s: Seq<char>, i: int, a: int, class: CharClass)
    requires
        0 <= i,
        0 <= a <= s.len(),
        i + s.len() <= chars.len(),
        s == chars.subrange(i, i + s.len()),
        lexer::run_end(chars, i + a, class) <= i + s.len(),
    ensures
        i + lexer::run_end(s, a, class) == lexer::run_end(chars, i + a, class),
{
    let j = lexer::run_end(chars, i + a, class);
    lemma_run_holds(chars, i + a, class);
    assert forall|k: int| a <= k < j - i implies class.has(#[trigger] s[k]) by {
        assert(s[k] == chars[i + k]);
    }
    if j - i < s.len() {
        assert(s[j - i] == chars[j]);
    }
    lemma_run(s, a, j - i, class);
}

/// A run at a part of a text behind which no character of its class stands.
proof fn lemma_run_around(chars: Seq<char>, s: Seq<char>, i: int, a: int, class: CharClass)
    requires
        0 <= i,
        0 <= a <= s.len(),
        i + s.len() <= chars.len(),
        s == chars.subrange(i, i + s.len()),
        i + s.len() < chars.len() ==> !class.has(chars[i + s.len()]),
    ensures
        lexer::run_end(chars, i + a, class) == i + lexer::run_end(s, a, class),
{
    let j = lexer::run_end(s, a, class);
    lemma_run_holds(s, a, class);
    assert forall|k: int| i + a <= k < i + j implies class.has(#[trigger] chars[k]) by {
        assert(s[k - i] == chars[k]);
    }
    if j < s.len() {
        assert(s[j] == chars[i + j]);
    }
    lemma_run(chars, i + a, i + j, class);
}

proof fn lemma_number_within(chars: Seq<char>, i: int)
    requires
        0 <= i < chars.len(),
        strings::is_digit(chars[i]) || (chars[i] == '-' && i + 1 < chars.len()
            && strings::is_digit(chars[i + 1])),
    ensures
        fits(TokenKind::Number, chars.subrange(i, lexer::number_end(chars, i))),
{
    let end = lexer::number_end(chars, i);
    let from = if lexer::char_is(chars, i, '-') {
        i + 1
    } else {
        i
    };
    let whole = lexer::run_end(chars, from, CharClass::Digit);
    lemma_run_holds(chars, from, CharClass::Digit);
    assert(whole > from) by {
        assert(CharClass::Digit.has(chars[from]));
        lemma_run_holds(chars, from + 1, CharClass::Digit);
    }
    if lexer::char_is(chars, whole, '.') {
        lemma_run_holds(chars, whole + 1, CharClass::Digit);
    }
    let s = chars.subrange(i, end);
    assert(s[0] == chars[i]);
    if s.len() > 1 {
        assert(s[1] == chars[i + 1]);
    }
    lemma_run_within(chars, s, i, from - i, CharClass::Digit);
    if whole < end {
        assert(s[whole - i] == chars[whole]);
        if lexer::char_is(chars, whole, '.') {
            lemma_run_within(chars, s, i, whole + 1 - i, CharClass::Digit);
            let fraction = lexer::run_end(chars, whole + 1, CharClass::Digit);
            if fraction < end {
                assert(s[fraction - i] == chars[fraction]);
            }
        }
    }
}

proof fn lemma_scan_fits(chars: Seq<char>, i: int)
    requires
        0 <= i < chars.len(),
    ensures
        match lexer::scan(chars, i) {
            Scan::Found { kind, end } => fits(kind, chars.subrange(i, end)),
            _ => true,
        },
{
    let c = chars[i];
    if strings::is_digit(c) || (c == '-' && i + 1 < chars.len() && strings::is_digit(
        chars[i + 1],
    )) {
        lemma_number_within(chars, i);
    } else if c == '"' {
        let close = lexer::run_end(chars, i + 1, CharClass::Quoted);
        lemma_run_holds(chars, i + 1, CharClass::Quoted);
        if lexer::char_is(chars, close, '"') {
            let s = chars.subrange(i, close + 1);
            assert forall|k: int| 0 < k < s.len() - 1 implies CharClass::Quoted.has(
                #[trigger] s[k],
            ) by {
                assert(s[k] == chars[i + k]);
            }
        }
    } else if CharClass::Word.has(c) {
        let end = lexer::run_end(chars, i, CharClass::Word);
        lemma_run_holds(chars, i, CharClass::Word);
        lemma_run_holds(chars, i + 1, CharClass::Word);
        let s = chars.subrange(i, end);
        assert(s[0] == c);
        assert forall|k: int| 0 <= k < s.len() implies CharClass::Word.has(#[trigger] s[k]) by {
            assert(s[k] == chars[i + k]);
        }
    }
}

proof fn lemma_tokens_fit(chars: Seq<char>, file: FileId, i: int, acc: Seq<TokenView>)
    requires
        0 <= i,
        all_fit(acc),
    ensures
        match lexer::tokens_from(chars, file, i, acc) {
            Ok(t) => all_fit(t),
            Err(_) => true,
        },
    decreases chars.len() - i,
{
    if i < chars.len() {
        lexer::lemma_scan_advances(chars, i);
        lemma_scan_fits(chars, i);
        match lexer::scan(chars, i) {
            Scan::Skip { end } => lemma_tokens_fit(chars, file, end, acc),
            Scan::Found { kind, end } => lemma_tokens_fit(
                chars,
                file,
                end,
                acc.push(lexer::token_at(chars, file, i, end, kind)),
            ),
            Scan::Bad { .. } => {},
        }
    }
}

// ── What is parsed ───────────────────────────────────────────────────────────

proof fn lemma_leaf_shaped(t: Seq<TokenView>, p: int)
    requires
        all_fit(t),
    ensures
        match grammar::leaf(t, p) {
            Ok((e, _)) => shaped(e.value) && level(e.value) == 0,
            Err(_) => true,
        },
    decreases grammar::left(t, p), 0nat,
{
    let source = grammar::at(t, p).source;
    if grammar::kind(t, p) == TokenKind::Str {
        assert(fits(t[p].kind, source));
        reveal_strlit("\"");
        assert("\""@ + grammar::unquoted(source) + "\""@ =~= source);
    } else if grammar::kind(t, p) == TokenKind::Number {
        assert(fits(t[p].kind, source));
    } else if grammar::kind(t, p) == TokenKind::Ident {
        assert(fits(t[p].kind, source));
        if grammar::kind(t, p + 1) == TokenKind::LParen {
            lemma_call_shaped(t, p + 1, source);
        }
    }
}

proof fn lemma_call_shaped(t: Seq<TokenView>, p: int, name: Seq<char>)
    requires
        all_fit(t),
    ensures
        match grammar::call(t, p, name) {
            Ok((c, _)) => c.name == name && all_shaped(
                c.arguments,
                2,
                c.arguments.len() as int,
            ),
            Err(_) => true,
        },
    decreases grammar::left(t, p), 8nat,
{
    if grammar::kind(t, p) == TokenKind::LParen {
        if grammar::kind(t, p + 1) != TokenKind::RParen {
            lemma_arguments_shaped(t, p + 1, Seq::empty());
        }
    }
}

proof fn lemma_arguments_shaped(t: Seq<TokenView>, p: int, acc: Seq<Spanned<ExprView>>)
    requires
        all_fit(t),
        all_shaped(acc, 2, acc.len() as int),
    ensures
        match grammar::arguments_from(t, p, acc) {
            Ok((v, _)) => all_shaped(v, 2, v.len() as int),
            Err(_) => true,
        },
    decreases grammar::left(t, p), 6nat,
{
    lemma_bitor_shaped(t, p);
    if let Ok((arg, q)) = grammar::expr(t, p) {
        lemma_shaped_push(acc, arg, 2, acc.len() as int);
        let more = acc.push(arg);
        assert(all_shaped(more, 2, more.len() as int));
        if grammar::kind(t, q) == TokenKind::Comma && p < t.len() {
            lemma_arguments_shaped(t, grammar::past(p, q + 1), more);
        }
    }
}

proof fn lemma_bitor_shaped(t: Seq<TokenView>, p: int)
    requires
        all_fit(t),
    ensures
        match grammar::bitor(t, p) {
            Ok((e, _)) => shaped(e.value),
            Err(_) => true,
        },
    decreases grammar::left(t, p), 4nat,
{
    lemma_sum_shaped(t, p);
    if let Ok((first, q)) = grammar::sum(t, p) {
        let acc = seq![first];
        assert(all_shaped(acc, 1, 0));
        assert(all_shaped(acc, 1, 1));
        if p < t.len() {
            lemma_bitor_rest_shaped(t, grammar::past(p, q), acc);
            if let Ok((terms, _)) = grammar::bitor_rest(t, grammar::past(p, q), acc) {
                if terms.len() == 1 {
                    lemma_shaped_at(terms, 1, 1, 0);
                }
            }
        }
    }
}

proof fn lemma_bitor_rest_shaped(t: Seq<TokenView>, p: int, acc: Seq<Spanned<ExprView>>)
    requires
        all_fit(t),
        acc.len() > 0,
        all_shaped(acc, 1, acc.len() as int),
    ensures
        match grammar::bitor_rest(t, p, acc) {
            Ok((v, _)) => v.len() > 0 && all_shaped(v, 1, v.len() as int),
            Err(_) => true,
        },
    decreases grammar::left(t, p), 3nat,
{
    if grammar::kind(t, p) == TokenKind::Pipe {
        lemma_sum_shaped(t, p + 1);
        if let Ok((term, q)) = grammar::sum(t, p + 1) {
            lemma_shaped_push(acc, term, 1, acc.len() as int);
            let more = acc.push(term);
            assert(all_shaped(more, 1, more.len() as int));
            lemma_bitor_rest_shaped(t, grammar::past(p, q), more);
        }
    }
}

proof fn lemma_sum_shaped(t: Seq<TokenView>, p: int)
    requires
        all_fit(t),
    ensures
        match grammar::sum(t, p) {
            Ok((e, _)) => p < t.len() && shaped(e.value) && level(e.value) <= 1,
            Err(_) => true,
        },
    decreases grammar::left(t, p), 2nat,
{
    lemma_leaf_shaped(t, p);
    if let Ok((first, q)) = grammar::leaf(t, p) {
        let acc = seq![first];
        assert(all_shaped(acc, 0, 0));
        assert(all_shaped(acc, 0, 1));
        lemma_sum_rest_shaped(t, grammar::past(p, q), acc);
        if let Ok((terms, _)) = grammar::sum_rest(t, grammar::past(p, q), acc) {
            if terms.len() == 1 {
                lemma_shaped_at(terms, 0, 1, 0);
            }
        }
    }
}

proof fn lemma_sum_rest_shaped(t: Seq<TokenView>, p: int, acc: Seq<Spanned<ExprView>>)
    requires
        all_fit(t),
        acc.len() > 0,
        all_shaped(acc, 0, acc.len() as int),
    ensures
        match grammar::sum_rest(t, p, acc) {
            Ok((v, _)) => v.len() > 0 && all_shaped(v, 0, v.len() as int),
            Err(_) => true,
        },
    decreases grammar::left(t, p), 1nat,
{
    if grammar::kind(t, p) == TokenKind::Plus {
        lemma_leaf_shaped(t, p + 1);
        if let Ok((term, q)) = grammar::leaf(t, p + 1) {
            lemma_shaped_push(acc, term, 0, acc.len() as int);
            let more = acc.push(term);
            assert(all_shaped(more, 0, more.len() as int));
            lemma_sum_rest_shaped(t, grammar::past(p, q), more);
        }
    }
}

// ── Tokens of the source form ────────────────────────────────────────────────

/// A token without its place.
struct Bare {
    kind: TokenKind,
    source: Seq<char>,
}

spec fn one(kind: TokenKind, source: Seq<char>) -> Seq<Bare> {
    seq![Bare { kind, source }]
}

/// The tokens of the source form of an expression.
spec fn spelled(e: ExprView) -> Seq<Bare>
    decreases e, 0nat,
{
    match e {
        ExprView::Number(s) => one(TokenKind::Number, s),
        ExprView::Bool(b) => one(
            TokenKind::Ident,
            if b {
                "TRUE"@
            } else {
                "FALSE"@
            },
        ),
        ExprView::String(s) => one(TokenKind::Str, "\""@ + s + "\""@),
        ExprView::Symbol(s) => one(TokenKind::Ident, s),
        ExprView::Constructor(c) => one(TokenKind::Ident, c.name) + one(TokenKind::LParen, "("@)
            + spelled_from(c.arguments, 0, TokenKind::Comma, ","@) + one(TokenKind::RParen, ")"@),
        ExprView::BitOr(v) => spelled_from(v, 0, TokenKind::Pipe, "|"@),
        ExprView::Add(v) => spelled_from(v, 0, TokenKind::Plus, "+"@),
    }
}

/// The tokens of the expressions from `k` on, with a mark before each but the first.
spec fn spelled_from(
    v: Seq<Spanned<ExprView>>,
    k: int,
    mark: TokenKind,
    source: Seq<char>,
) -> Seq<Bare>
    decreases v, v.len() - k,
{
    if k < 0 || k >= v.len() {
        Seq::empty()
    } else {
        (if k > 0 {
            one(mark, source)
        } else {
            Seq::empty()
        }) + spelled(v[k].value) + spelled_from(v, k + 1, mark, source)
    }
}

/// Whether some tokens stand at a position.
spec fn spells(t: Seq<TokenView>, p: int, ks: Seq<Bare>) -> bool {
    &&& 0 <= p
    &&& p + ks.len() <= t.len()
    &&& forall|i: int|
        0 <= i < ks.len() ==> (#[trigger] t[p + i]).kind == ks[i].kind && t[p + i].source
            == ks[i].source
}

proof fn lemma_spells_parts(t: Seq<TokenView>, p: int, a: Seq<Bare>, b: Seq<Bare>)
    requires
        spells(t, p, a + b),
    ensures
        spells(t, p, a),
        spells(t, p + a.len(), b),
{
    assert forall|i: int| 0 <= i < a.len() implies (#[trigger] t[p + i]).kind == a[i].kind && t[p
        + i].source == a[i].source by {
        assert((a + b)[i] == a[i]);
    }
    assert forall|i: int| 0 <= i < b.len() implies (#[trigger] t[p + a.len() + i]).kind == b[i].kind
        && t[p + a.len() + i].source == b[i].source by {
        let j = a.len() + i;
        assert((a + b)[j] == b[i]);
        assert(t[p + j].kind == (a + b)[j].kind);
    }
}

proof fn lemma_one(t: Seq<TokenView>, p: int, k: TokenKind, s: Seq<char>)
    requires
        spells(t, p, one(k, s)),
    ensures
        0 <= p < t.len(),
        t[p].kind == k,
        t[p].source == s,
{
    assert(one(k, s)[0] == Bare { kind: k, source: s });
    assert(t[p + 0].kind == k);
}

proof fn lemma_spelled_some(e: ExprView)
    requires
        shaped(e),
    ensures
        spelled(e).len() > 0,
    decreases e,
{
    match e {
        ExprView::BitOr(v) => {
            lemma_shaped_at(v, 1, v.len() as int, 0);
            lemma_spelled_some(v[0].value);
        },
        ExprView::Add(v) => {
            lemma_shaped_at(v, 0, v.len() as int, 0);
            lemma_spelled_some(v[0].value);
        },
        _ => {},
    }
}

// ── Parsing the tokens of the source form ────────────────────────────────────

proof fn lemma_leaf_parses(t: Seq<TokenView>, p: int, e: ExprView)
    requires
        shaped(e),
        level(e) == 0,
        spells(t, p, spelled(e)),
        grammar::kind(t, p + spelled(e).len()) != TokenKind::LParen,
    ensures
        grammar::leaf(t, p) matches Ok((x, q)) && q == p + spelled(e).len() && same_tree(e, x.value),
    decreases e, 0nat,
{
    match e {
        ExprView::Number(s) => {
            lemma_one(t, p, TokenKind::Number, s);
            assert(grammar::leaf(t, p) matches Ok((x, q)) && q == p + 1 && x.value == e);
        },
        ExprView::Bool(b) => {
            reveal_strlit("TRUE");
            reveal_strlit("FALSE");
            reveal_strlit("BTRUE");
            assert("FALSE"@[0] != "BTRUE"@[0]);
            lemma_one(
                t,
                p,
                TokenKind::Ident,
                if b {
                    "TRUE"@
                } else {
                    "FALSE"@
                },
            );
            assert(grammar::leaf(t, p) matches Ok((x, q)) && q == p + 1 && x.value == e);
        },
        ExprView::String(s) => {
            lemma_one(t, p, TokenKind::Str, "\""@ + s + "\""@);
            reveal_strlit("\"");
            assert(grammar::unquoted("\""@ + s + "\""@) =~= s);
            assert(grammar::leaf(t, p) matches Ok((x, q)) && q == p + 1 && x.value == e);
        },
        ExprView::Symbol(s) => {
            lemma_one(t, p, TokenKind::Ident, s);
            assert(grammar::leaf(t, p) matches Ok((x, q)) && q == p + 1 && x.value == e);
        },
        ExprView::Constructor(c) => {
            let args = spelled_from(c.arguments, 0, TokenKind::Comma, ","@);
            let a = one(TokenKind::Ident, c.name);
            let b = one(TokenKind::LParen, "("@);
            let d = one(TokenKind::RParen, ")"@);
            lemma_spells_parts(t, p, a + b + args, d);
            lemma_spells_parts(t, p, a + b, args);
            lemma_spells_parts(t, p, a, b);
            lemma_one(t, p, TokenKind::Ident, c.name);
            lemma_one(t, p + 1, TokenKind::LParen, "("@);
            let end = p + 2 + args.len();
            lemma_one(t, end, TokenKind::RParen, ")"@);
            assert(spelled(e).len() == args.len() + 3);
            if c.arguments.len() == 0 {
                assert(args.len() == 0);
                assert(grammar::arguments(t, p + 2) matches Ok((w, q)) && q == end && w.len() == 0);
                assert(same_trees(c.arguments, Seq::empty(), 0));
            } else {
                lemma_shaped_at(c.arguments, 2, c.arguments.len() as int, 0);
                lemma_first_token(t, p + 2, c.arguments);
                let rest = spelled_from(c.arguments, 1, TokenKind::Comma, ","@);
                assert(args =~= spelled(c.arguments[0].value) + rest);
                lemma_arguments_parse(t, p + 2, c.arguments, 0, Seq::empty());
                assert(grammar::arguments(t, p + 2) matches Ok((w, q)) && q == end);
            }
            assert(grammar::call(t, p + 1, c.name) matches Ok((d, q)) && q == end + 1);
            assert(grammar::leaf(t, p) matches Ok((x, q)) && q == end + 1 && same_tree(e, x.value));
        },
        _ => {},
    }
}

/// The first token of an argument is no closing parenthesis.
proof fn lemma_first_token(t: Seq<TokenView>, p: int, v: Seq<Spanned<ExprView>>)
    requires
        v.len() > 0,
        shaped(v[0].value),
        spells(t, p, spelled_from(v, 0, TokenKind::Comma, ","@)),
    ensures
        grammar::kind(t, p) != TokenKind::RParen,
{
    let first = spelled(v[0].value);
    let rest = spelled_from(v, 1, TokenKind::Comma, ","@);
    assert(spelled_from(v, 0, TokenKind::Comma, ","@) =~= first + rest);
    lemma_spells_parts(t, p, first, rest);
    lemma_spelled_some(v[0].value);
    lemma_starts(v[0].value);
    assert(t[p + 0].kind == first[0].kind);
}

spec fn starts_expression(k: TokenKind) -> bool {
    k == TokenKind::Number || k == TokenKind::Ident || k == TokenKind::Str
}

proof fn lemma_starts(e: ExprView)
    requires
        shaped(e),
    ensures
        spelled(e).len() > 0,
        starts_expression(spelled(e)[0].kind),
    decreases e,
{
    match e {
        ExprView::BitOr(v) => {
            lemma_shaped_at(v, 1, v.len() as int, 0);
            lemma_starts(v[0].value);
        },
        ExprView::Add(v) => {
            lemma_shaped_at(v, 0, v.len() as int, 0);
            lemma_starts(v[0].value);
        },
        _ => {},
    }
}

proof fn lemma_arguments_parse(
    t: Seq<TokenView>,
    p: int,
    v: Seq<Spanned<ExprView>>,
    k: int,
    acc: Seq<Spanned<ExprView>>,
)
    requires
        0 <= k < v.len(),
        acc.len() == k,
        all_shaped(v, 2, v.len() as int),
        same_trees(v, acc, k),
        spells(
            t,
            p,
            spelled(v[k].value) + spelled_from(v, k + 1, TokenKind::Comma, ","@),
        ),
        grammar::kind(
            t,
            p + spelled(v[k].value).len() + spelled_from(v, k + 1, TokenKind::Comma, ","@).len(),
        ) == TokenKind::RParen,
    ensures
        grammar::arguments_from(t, p, acc) matches Ok((w, q)) && w.len() == v.len() && same_trees(
            v,
            w,
            v.len() as int,
        ) && q == p + spelled(v[k].value).len() + spelled_from(
            v,
            k + 1,
            TokenKind::Comma,
            ","@,
        ).len(),
    decreases v, v.len() - k, 0nat,
{
    let first = spelled(v[k].value);
    let rest = spelled_from(v, k + 1, TokenKind::Comma, ","@);
    lemma_spells_parts(t, p, first, rest);
    lemma_shaped_at(v, 2, v.len() as int, k);
    lemma_spelled_some(v[k].value);
    let q = p + first.len();
    if k + 1 < v.len() {
        let comma = one(TokenKind::Comma, ","@);
        let next = spelled(v[k + 1].value);
        let behind = spelled_from(v, k + 2, TokenKind::Comma, ","@);
        assert(rest =~= comma + (next + behind));
        lemma_spells_parts(t, q, comma, next + behind);
        lemma_one(t, q, TokenKind::Comma, ","@);
        lemma_parses(t, p, v[k].value);
        let arg = grammar::expr(t, p)->Ok_0.0;
        let more = acc.push(arg);
        lemma_same_push(v, acc, arg, k);
        assert(same_trees(v, more, k + 1));
        lemma_arguments_parse(t, q + 1, v, k + 1, more);
    } else {
        assert(rest.len() == 0);
        lemma_parses(t, p, v[k].value);
        let arg = grammar::expr(t, p)->Ok_0.0;
        lemma_same_push(v, acc, arg, k);
    }
}

/// The tokens of an expression parse to it, where no token behind goes on.
proof fn lemma_parses(t: Seq<TokenView>, p: int, e: ExprView)
    requires
        shaped(e),
        spells(t, p, spelled(e)),
        !goes_on(grammar::kind(t, p + spelled(e).len()), 2),
    ensures
        grammar::expr(t, p) matches Ok((x, q)) && q == p + spelled(e).len() && same_tree(e, x.value),
    decreases e, 3nat,
{
    lemma_spelled_some(e);
    match e {
        ExprView::BitOr(v) => {
            let first = spelled(v[0].value);
            let rest = spelled_from(v, 1, TokenKind::Pipe, "|"@);
            assert(spelled(e) =~= first + rest);
            lemma_spells_parts(t, p, first, rest);
            lemma_shaped_at(v, 1, v.len() as int, 0);
            lemma_spelled_some(v[0].value);
            lemma_mark(t, p + first.len(), v, 1, TokenKind::Pipe, "|"@);
            lemma_sum_parses(t, p, v[0].value);
            let x = grammar::sum(t, p)->Ok_0.0;
            let acc = seq![x];
            assert(same_trees(v, acc, 0));
            assert(same_trees(v, acc, 1));
            lemma_bitor_rest_parses(t, p + first.len(), v, 1, acc);
        },
        _ => {
            lemma_sum_parses(t, p, e);
            let x = grammar::sum(t, p)->Ok_0.0;
            assert(seq![x].len() == 1 && seq![x][0] == x);
        },
    }
}

/// Whether a token behind an expression of a level would be read with it.
spec fn goes_on(k: TokenKind, level: int) -> bool {
    ||| k == TokenKind::LParen
    ||| level >= 1 && k == TokenKind::Plus
    ||| level >= 2 && k == TokenKind::Pipe
}

/// The mark before term `k`, where there is one.
proof fn lemma_mark(
    t: Seq<TokenView>,
    p: int,
    v: Seq<Spanned<ExprView>>,
    k: int,
    mark: TokenKind,
    source: Seq<char>,
)
    requires
        0 < k,
        spells(t, p, spelled_from(v, k, mark, source)),
    ensures
        k < v.len() ==> p < t.len() && t[p].kind == mark && spells(
            t,
            p + 1,
            spelled(v[k].value),
        ) && spells(
            t,
            p + 1 + spelled(v[k].value).len(),
            spelled_from(v, k + 1, mark, source),
        ),
        k < v.len() ==> spelled_from(v, k, mark, source).len() == 1 + spelled(v[k].value).len()
            + spelled_from(v, k + 1, mark, source).len(),
        k >= v.len() ==> spelled_from(v, k, mark, source).len() == 0,
{
    if k < v.len() {
        let a = one(mark, source);
        let b = spelled(v[k].value);
        let c = spelled_from(v, k + 1, mark, source);
        lemma_spells_parts(t, p, a + b, c);
        lemma_spells_parts(t, p, a, b);
        lemma_one(t, p, mark, source);
    }
}

proof fn lemma_bitor_rest_parses(
    t: Seq<TokenView>,
    p: int,
    v: Seq<Spanned<ExprView>>,
    k: int,
    acc: Seq<Spanned<ExprView>>,
)
    requires
        0 < k <= v.len(),
        acc.len() == k,
        all_shaped(v, 1, v.len() as int),
        same_trees(v, acc, k),
        spells(t, p, spelled_from(v, k, TokenKind::Pipe, "|"@)),
        !goes_on(
            grammar::kind(t, p + spelled_from(v, k, TokenKind::Pipe, "|"@).len()),
            2,
        ),
    ensures
        grammar::bitor_rest(t, p, acc) matches Ok((w, q)) && w.len() == v.len() && same_trees(
            v,
            w,
            v.len() as int,
        ) && q == p + spelled_from(v, k, TokenKind::Pipe, "|"@).len(),
    decreases v, v.len() - k, 0nat,
{
    lemma_mark(t, p, v, k, TokenKind::Pipe, "|"@);
    if k < v.len() {
        let n = spelled(v[k].value).len();
        lemma_shaped_at(v, 1, v.len() as int, k);
        lemma_mark(t, p + 1 + n, v, k + 1, TokenKind::Pipe, "|"@);
        lemma_sum_parses(t, p + 1, v[k].value);
        let term = grammar::sum(t, p + 1)->Ok_0.0;
        lemma_same_push(v, acc, term, k);
        assert(same_trees(v, acc.push(term), k + 1));
        lemma_bitor_rest_parses(t, p + 1 + n, v, k + 1, acc.push(term));
    }
}

proof fn lemma_sum_parses(t: Seq<TokenView>, p: int, e: ExprView)
    requires
        shaped(e),
        level(e) <= 1,
        spells(t, p, spelled(e)),
        !goes_on(grammar::kind(t, p + spelled(e).len()), 1),
    ensures
        grammar::sum(t, p) matches Ok((x, q)) && q == p + spelled(e).len() && same_tree(e, x.value),
    decreases e, 2nat,
{
    lemma_spelled_some(e);
    match e {
        ExprView::Add(v) => {
            let first = spelled(v[0].value);
            let rest = spelled_from(v, 1, TokenKind::Plus, "+"@);
            assert(spelled(e) =~= first + rest);
            lemma_spells_parts(t, p, first, rest);
            lemma_shaped_at(v, 0, v.len() as int, 0);
            lemma_spelled_some(v[0].value);
            lemma_mark(t, p + first.len(), v, 1, TokenKind::Plus, "+"@);
            lemma_leaf_parses(t, p, v[0].value);
            let x = grammar::leaf(t, p)->Ok_0.0;
            let acc = seq![x];
            assert(same_trees(v, acc, 0));
            assert(same_trees(v, acc, 1));
            lemma_sum_rest_parses(t, p + first.len(), v, 1, acc);
        },
        _ => {
            lemma_leaf_parses(t, p, e);
            let x = grammar::leaf(t, p)->Ok_0.0;
            assert(seq![x].len() == 1 && seq![x][0] == x);
        },
    }
}

proof fn lemma_sum_rest_parses(
    t: Seq<TokenView>,
    p: int,
    v: Seq<Spanned<ExprView>>,
    k: int,
    acc: Seq<Spanned<ExprView>>,
)
    requires
        0 < k <= v.len(),
        acc.len() == k,
        all_shaped(v, 0, v.len() as int),
        same_trees(v, acc, k),
        spells(t, p, spelled_from(v, k, TokenKind::Plus, "+"@)),
        !goes_on(
            grammar::kind(t, p + spelled_from(v, k, TokenKind::Plus, "+"@).len()),
            1,
        ),
    ensures
        grammar::sum_rest(t, p, acc) matches Ok((w, q)) && w.len() == v.len() && same_trees(
            v,
            w,
            v.len() as int,
        ) && q == p + spelled_from(v, k, TokenKind::Plus, "+"@).len(),
    decreases v, v.len() - k, 0nat,
{
    lemma_mark(t, p, v, k, TokenKind::Plus, "+"@);
    if k < v.len() {
        let n = spelled(v[k].value).len();
        lemma_shaped_at(v, 0, v.len() as int, k);
        lemma_mark(t, p + 1 + n, v, k + 1, TokenKind::Plus, "+"@);
        lemma_leaf_parses(t, p + 1, v[k].value);
        let term = grammar::leaf(t, p + 1)->Ok_0.0;
        lemma_same_push(v, acc, term, k);
        assert(same_trees(v, acc.push(term), k + 1));
        lemma_sum_rest_parses(t, p + 1 + n, v, k + 1, acc.push(term));
    }
}

// ── Lexing the source form ───────────────────────────────────────────────────

/// The tokens without their places.
spec fn bared(t: Seq<TokenView>) -> Seq<Bare> {
    Seq::new(t.len(), |i: int| Bare { kind: t[i].kind, source: t[i].source })
}

/// Whether a text ends at a position, or goes on with what can follow an expression.
spec fn cut(chars: Seq<char>, j: int) -> bool {
    j >= chars.len() || chars[j] == ' ' || chars[j] == ',' || chars[j] == ')'
}

/// Whether a text stands at a position.
spec fn holds(chars: Seq<char>, i: int, s: Seq<char>) -> bool {
    0 <= i && i + s.len() <= chars.len() && chars.subrange(i, i + s.len()) == s
}

proof fn lemma_holds_parts(chars: Seq<char>, i: int, a: Seq<char>, b: Seq<char>)
    requires
        holds(chars, i, a + b),
    ensures
        holds(chars, i, a),
        holds(chars, i + a.len(), b),
{
    let all = chars.subrange(i, i + (a + b).len());
    assert(chars.subrange(i, i + a.len()) =~= a) by {
        assert forall|k: int| 0 <= k < a.len() implies chars[i + k] == a[k] by {
            assert(all[k] == (a + b)[k]);
        }
    }
    assert(chars.subrange(i + a.len(), i + a.len() + b.len()) =~= b) by {
        assert forall|k: int| 0 <= k < b.len() implies chars[i + a.len() + k] == b[k] by {
            assert(all[a.len() + k] == (a + b)[a.len() + k]);
        }
    }
}

/// One token, whose text ends where it should.
proof fn lemma_token(
    chars: Seq<char>,
    file: FileId,
    i: int,
    s: Seq<char>,
    kind: TokenKind,
    acc: Seq<TokenView>,
) -> (r: Seq<TokenView>)
    requires
        s.len() > 0,
        holds(chars, i, s),
        lexer::scan(chars, i) == (Scan::Found { kind, end: i + s.len() }),
    ensures
        bared(r) == one(kind, s),
        lexer::tokens_from(chars, file, i, acc) == lexer::tokens_from(
            chars,
            file,
            i + s.len(),
            acc + r,
        ),
{
    let r = seq![lexer::token_at(chars, file, i, i + s.len(), kind)];
    assert(bared(r) =~= one(kind, s));
    assert(acc + r =~= acc.push(r[0]));
    r
}

proof fn lemma_name_scans(chars: Seq<char>, i: int, s: Seq<char>)
    requires
        is_name(s),
        holds(chars, i, s),
        i + s.len() < chars.len() ==> !CharClass::Word.has(chars[i + s.len()]),
    ensures
        lexer::scan(chars, i) == (Scan::Found { kind: TokenKind::Ident, end: i + s.len() }),
{
    let j = i + s.len();
    assert(chars[i] == chars.subrange(i, j)[0]);
    assert forall|k: int| i <= k < j implies CharClass::Word.has(#[trigger] chars[k]) by {
        assert(chars[k] == chars.subrange(i, j)[k - i]);
        assert(CharClass::Word.has(s[k - i]));
    }
    assert(CharClass::Word.has(chars[i]));
    lemma_run(chars, i, j, CharClass::Word);
}

proof fn lemma_number_scans(chars: Seq<char>, i: int, s: Seq<char>)
    requires
        fits(TokenKind::Number, s),
        holds(chars, i, s),
        cut(chars, i + s.len()),
    ensures
        lexer::scan(chars, i) == (Scan::Found { kind: TokenKind::Number, end: i + s.len() }),
{
    let n = s.len() as int;
    assert(chars[i] == chars.subrange(i, i + n)[0]);
    if n > 1 {
        assert(chars[i + 1] == chars.subrange(i, i + n)[1]);
    }
    let from: int = if lexer::char_is(s, 0, '-') {
        1
    } else {
        0
    };
    lemma_run_around(chars, s, i, from, CharClass::Digit);
    let whole = lexer::run_end(s, from, CharClass::Digit);
    lemma_run_holds(s, from, CharClass::Digit);
    if whole < n {
        assert(s[whole] == chars[i + whole]);
    }
    if lexer::char_is(s, whole, '.') {
        lemma_run_around(chars, s, i, whole + 1, CharClass::Digit);
        lemma_run_holds(s, whole + 1, CharClass::Digit);
    }
    let fraction = if lexer::char_is(s, whole, '.') {
        lexer::run_end(s, whole + 1, CharClass::Digit)
    } else {
        whole
    };
    if fraction < n {
        assert(s[fraction] == chars[i + fraction]);
        if fraction + 1 < n {
            assert(s[fraction + 1] == chars[i + fraction + 1]);
        }
    }
    assert(lexer::number_end(chars, i) == i + n);
}

proof fn lemma_string_scans(chars: Seq<char>, i: int, s: Seq<char>)
    requires
        fits(TokenKind::Str, s),
        holds(chars, i, s),
    ensures
        lexer::scan(chars, i) == (Scan::Found { kind: TokenKind::Str, end: i + s.len() }),
{
    let j = i + s.len() - 1;
    let part = chars.subrange(i, i + s.len());
    assert(chars[i] == part[0]);
    assert(chars[j] == part[s.len() - 1]);
    assert forall|k: int| i + 1 <= k < j implies CharClass::Quoted.has(#[trigger] chars[k]) by {
        assert(chars[k] == part[k - i]);
        assert(CharClass::Quoted.has(s[k - i]));
    }
    lemma_run(chars, i + 1, j, CharClass::Quoted);
}

/// A source form begins with no blank space.
proof fn lemma_first_char(e: ExprView)
    requires
        shaped(e),
    ensures
        ast::expr_text(e).len() > 0,
        !CharClass::Space.has(ast::expr_text(e)[0]),
    decreases e,
{
    match e {
        ExprView::Number(s) => {},
        ExprView::Bool(b) => {
            reveal_strlit("TRUE");
            reveal_strlit("FALSE");
        },
        ExprView::String(s) => {
            reveal_strlit("\"");
        },
        ExprView::Symbol(s) => {
            assert(CharClass::Word.has(s[0]));
        },
        ExprView::Constructor(c) => {
            assert(CharClass::Word.has(c.name[0]));
            assert(ast::expr_text(e)[0] == c.name[0]);
        },
        ExprView::BitOr(v) => {
            lemma_shaped_at(v, 1, v.len() as int, 0);
            lemma_first_char(v[0].value);
            assert(ast::expr_text(e)[0] == ast::expr_text(v[0].value)[0]);
        },
        ExprView::Add(v) => {
            lemma_shaped_at(v, 0, v.len() as int, 0);
            lemma_first_char(v[0].value);
            assert(ast::expr_text(e)[0] == ast::expr_text(v[0].value)[0]);
        },
    }
}

/// One blank is skipped.
proof fn lemma_blank(chars: Seq<char>, file: FileId, i: int, acc: Seq<TokenView>)
    requires
        0 <= i < chars.len(),
        chars[i] == ' ',
        i + 1 < chars.len() ==> !CharClass::Space.has(chars[i + 1]),
    ensures
        lexer::tokens_from(chars, file, i, acc) == lexer::tokens_from(chars, file, i + 1, acc),
{
    lemma_run(chars, i, i + 1, CharClass::Space);
}

/// A mark of one character.
proof fn lemma_mark_scans(chars: Seq<char>, i: int)
    requires
        0 <= i < chars.len(),
        chars[i] == '(' || chars[i] == ')' || chars[i] == ',' || chars[i] == '|' || chars[i] == '+',
    ensures
        lexer::scan(chars, i) == (Scan::Found { kind: lexer::mark_kind(chars[i]), end: i + 1 }),
{
}

/// The source form of an expression lexes to its tokens.
proof fn lemma_lexes(
    chars: Seq<char>,
    file: FileId,
    i: int,
    e: ExprView,
    acc: Seq<TokenView>,
) -> (r: Seq<TokenView>)
    requires
        shaped(e),
        holds(chars, i, ast::expr_text(e)),
        cut(chars, i + ast::expr_text(e).len()),
    ensures
        bared(r) == spelled(e),
        lexer::tokens_from(chars, file, i, acc) == lexer::tokens_from(
            chars,
            file,
            i + ast::expr_text(e).len(),
            acc + r,
        ),
    decreases e, 1nat, 0nat,
{
    match e {
        ExprView::Number(s) => {
            lemma_number_scans(chars, i, s);
            lemma_token(chars, file, i, s, TokenKind::Number, acc)
        },
        ExprView::Bool(b) => {
            let s = if b {
                "TRUE"@
            } else {
                "FALSE"@
            };
            reveal_strlit("TRUE");
            reveal_strlit("FALSE");
            reveal_strlit("enum");
            reveal_strlit("namespace");
            assert(s[0] != "enum"@[0]);
            assert(is_name(s));
            lemma_name_scans(chars, i, s);
            lemma_token(chars, file, i, s, TokenKind::Ident, acc)
        },
        ExprView::String(s) => {
            let quoted = "\""@ + s + "\""@;
            lemma_string_scans(chars, i, quoted);
            lemma_token(chars, file, i, quoted, TokenKind::Str, acc)
        },
        ExprView::Symbol(s) => {
            lemma_name_scans(chars, i, s);
            lemma_token(chars, file, i, s, TokenKind::Ident, acc)
        },
        ExprView::Constructor(c) => lemma_call_lexes(chars, file, i, c, acc),
        ExprView::BitOr(v) => {
            reveal_strlit(" | ");
            reveal_strlit("|");
            lemma_all_lex(chars, file, i, v, 0, " | "@, TokenKind::Pipe, "|"@, 1, acc)
        },
        ExprView::Add(v) => {
            reveal_strlit(" + ");
            reveal_strlit("+");
            lemma_all_lex(chars, file, i, v, 0, " + "@, TokenKind::Plus, "+"@, 0, acc)
        },
    }
}

proof fn lemma_call_lexes(
    chars: Seq<char>,
    file: FileId,
    i: int,
    c: CallView,
    acc: Seq<TokenView>,
) -> (r: Seq<TokenView>)
    requires
        shaped(ExprView::Constructor(c)),
        holds(chars, i, ast::expr_text(ExprView::Constructor(c))),
    ensures
        bared(r) == spelled(ExprView::Constructor(c)),
        lexer::tokens_from(chars, file, i, acc) == lexer::tokens_from(
            chars,
            file,
            i + ast::expr_text(ExprView::Constructor(c)).len(),
            acc + r,
        ),
    decreases c, 0nat, 0nat,
{
    reveal_strlit("(");
    reveal_strlit(")");
    reveal_strlit(", ");
    reveal_strlit(",");
    let args = ast::joined(c.arguments, 0, ", "@);
    lemma_holds_parts(chars, i, c.name + "("@ + args, ")"@);
    lemma_holds_parts(chars, i, c.name + "("@, args);
    lemma_holds_parts(chars, i, c.name, "("@);
    let open = i + c.name.len();
    let from = open + 1;
    let close = from + args.len();
    assert(chars[open] == chars.subrange(open, open + 1)[0]);
    assert(chars[close] == chars.subrange(close, close + 1)[0]);
    lemma_name_scans(chars, i, c.name);
    let a = lemma_token(chars, file, i, c.name, TokenKind::Ident, acc);
    lemma_mark_scans(chars, open);
    let b = lemma_token(chars, file, open, "("@, TokenKind::LParen, acc + a);
    let d = lemma_all_lex(
        chars,
        file,
        from,
        c.arguments,
        0,
        ", "@,
        TokenKind::Comma,
        ","@,
        2,
        acc + a + b,
    );
    lemma_mark_scans(chars, close);
    let f = lemma_token(chars, file, close, ")"@, TokenKind::RParen, acc + a + b + d);
    let r = a + b + d + f;
    assert(acc + a + b + d + f =~= acc + r);
    assert(bared(r) =~= bared(a) + bared(b) + bared(d) + bared(f));
    r
}

/// The separator before term `k`, and the mark that it is.
proof fn lemma_separator_lexes(
    chars: Seq<char>,
    file: FileId,
    i: int,
    sep: Seq<char>,
    mark: TokenKind,
    source: Seq<char>,
    acc: Seq<TokenView>,
) -> (r: Seq<TokenView>)
    requires
        holds(chars, i, sep),
        i + sep.len() < chars.len(),
        !CharClass::Space.has(chars[i + sep.len()]),
        is_separator(sep, mark, source),
    ensures
        bared(r) == one(mark, source),
        lexer::tokens_from(chars, file, i, acc) == lexer::tokens_from(
            chars,
            file,
            i + sep.len(),
            acc + r,
        ),
{
    let part = chars.subrange(i, i + sep.len());
    assert(chars[i] == part[0]);
    assert(chars[i + 1] == part[1]);
    if sep.len() == 2 {
        lemma_mark_scans(chars, i);
        assert(chars.subrange(i, i + 1) =~= source);
        let r = lemma_token(chars, file, i, source, mark, acc);
        lemma_blank(chars, file, i + 1, acc + r);
        r
    } else {
        assert(chars[i + 2] == part[2]);
        lemma_blank(chars, file, i, acc);
        lemma_mark_scans(chars, i + 1);
        assert(chars.subrange(i + 1, i + 2) =~= source);
        let r = lemma_token(chars, file, i + 1, source, mark, acc);
        lemma_blank(chars, file, i + 2, acc + r);
        r
    }
}

/// Whether a separator is a mark, with a blank before it or not and one behind.
spec fn is_separator(sep: Seq<char>, mark: TokenKind, source: Seq<char>) -> bool {
    &&& source.len() == 1
    &&& source[0] == ',' || source[0] == '|' || source[0] == '+'
    &&& lexer::mark_kind(source[0]) == mark
    &&& (sep.len() == 2 && source[0] == ',' && sep[0] == source[0] && sep[1] == ' ') || (sep.len()
        == 3 && sep[0] == ' ' && sep[1] == source[0] && sep[2] == ' ')
}

proof fn lemma_all_lex(
    chars: Seq<char>,
    file: FileId,
    i: int,
    v: Seq<Spanned<ExprView>>,
    k: int,
    sep: Seq<char>,
    mark: TokenKind,
    source: Seq<char>,
    most: int,
    acc: Seq<TokenView>,
) -> (r: Seq<TokenView>)
    requires
        0 <= k <= v.len(),
        all_shaped(v, most, v.len() as int),
        is_separator(sep, mark, source),
        holds(chars, i, ast::joined(v, k, sep)),
        cut(chars, i + ast::joined(v, k, sep).len()),
    ensures
        bared(r) == spelled_from(v, k, mark, source),
        lexer::tokens_from(chars, file, i, acc) == lexer::tokens_from(
            chars,
            file,
            i + ast::joined(v, k, sep).len(),
            acc + r,
        ),
    decreases v, 0nat, v.len() - k,
{
    if k >= v.len() {
        let r = Seq::<TokenView>::empty();
        assert(acc + r =~= acc);
        assert(bared(r) =~= spelled_from(v, k, mark, source));
        r
    } else {
        lemma_shaped_at(v, most, v.len() as int, k);
        let before = if k > 0 {
            sep
        } else {
            Seq::empty()
        };
        let text = ast::expr_text(v[k].value);
        let rest = ast::joined(v, k + 1, sep);
        lemma_holds_parts(chars, i, before + text, rest);
        lemma_holds_parts(chars, i, before, text);
        lemma_first_char(v[k].value);
        let at = i + before.len();
        assert(chars[at] == chars.subrange(at, at + text.len())[0]);
        let a = if k > 0 {
            lemma_separator_lexes(chars, file, i, sep, mark, source, acc)
        } else {
            let none = Seq::<TokenView>::empty();
            assert(acc + none =~= acc);
            none
        };
        let end = at + text.len();
        assert(cut(chars, end)) by {
            if k + 1 < v.len() {
                assert(rest.len() > 0 && rest[0] == sep[0]);
                assert(chars[end] == chars.subrange(end, end + rest.len())[0]);
            } else {
                assert(rest.len() == 0);
            }
        }
        let b = lemma_lexes(chars, file, at, v[k].value, acc + a);
        let c = lemma_all_lex(
            chars,
            file,
            end,
            v,
            k + 1,
            sep,
            mark,
            source,
            most,
            acc + a + b,
        );
        let r = a + b + c;
        assert(acc + a + b + c =~= acc + r);
        assert(bared(r) =~= bared(a) + bared(b) + bared(c));
        assert(bared(r) =~= spelled_from(v, k, mark, source));
        r
    }
}

// ── Laws ─────────────────────────────────────────────────────────────────────

/// The source form of a parsed expression parses to the same expression, but for places.
pub proof fn an_expression_reads_back(input: Seq<char>)
    ensures
        match grammar::expression(input) {
            Ok(e) => grammar::expression(ast::expr_text(e.value)) matches Ok(x) && same_tree(
                e.value,
                x.value,
            ),
            Err(_) => true,
        },
{
    let file = FileId(u32::MAX);
    lemma_tokens_fit(input, file, 0, Seq::empty());
    if let Ok(e) = grammar::expression(input) {
        lemma_bitor_shaped(lexer::lexed(input, file)->Ok_0, 0);
        let chars = ast::expr_text(e.value);
        assert(chars.subrange(0, chars.len() as int) =~= chars);
        let r = lemma_lexes(chars, file, 0, e.value, Seq::empty());
        let n = chars.len() as int;
        let t = (Seq::empty() + r).push(lexer::token_at(chars, file, n, n, TokenKind::Eof));
        assert(lexer::lexed(chars, file) == Ok::<Seq<TokenView>, lexer::LexError>(t));
        assert forall|i: int| 0 <= i < spelled(e.value).len() implies (#[trigger] t[0 + i]).kind
            == spelled(e.value)[i].kind && t[0 + i].source == spelled(e.value)[i].source by {
            assert(bared(r)[i] == spelled(e.value)[i]);
            assert(t[i] == r[i]);
        }
        assert(r.len() == bared(r).len());
        assert(t[r.len() as int].kind == TokenKind::Eof);
        lemma_parses(t, 0, e.value);
    }
}

} // verus!
