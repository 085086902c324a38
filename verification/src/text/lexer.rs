//! The lexer: text to tokens.
//!
//! Lexing works on the characters of the text; spans are byte ranges of its
//! UTF-8 encoding.

use vstd::prelude::*;

use crate::strings;
use crate::strings::{chars_of, digit, push_text, same, text_between};
use crate::text::base;
use crate::text::base::{FileId, Span};

verus! {

/// What a token is.
#[derive(Copy, Clone, Debug, PartialEq, Eq, Structural)]
pub enum TokenKind {
    Definition,
    DefinitionTemplate,
    EndDefinition,
    Define,
    Ifdef,
    Ifndef,
    Else,
    Endif,
    Pragma,
    Namespace,
    Enum,
    Ident,
    Number,
    Str,
    LParen,
    RParen,
    LBracket,
    RBracket,
    LBrace,
    RBrace,
    Lt,
    Gt,
    Backslash,
    Dot,
    Comma,
    Semi,
    Pipe,
    Plus,
    Eq,
    Shl,
    Unknown,
    Eof,
}

impl TokenKind {
    /// How the kind is named in an error message.
    pub open spec fn description(self) -> Seq<char> {
        match self {
            TokenKind::Definition => "`#definition`"@,
            TokenKind::DefinitionTemplate => "`#definition_template`"@,
            TokenKind::EndDefinition => "`#end_definition`"@,
            TokenKind::Define => "`#define`"@,
            TokenKind::Ifdef => "`#ifdef`"@,
            TokenKind::Ifndef => "`#ifndef`"@,
            TokenKind::Else => "`#else`"@,
            TokenKind::Endif => "`#endif`"@,
            TokenKind::Pragma => "`#pragma`"@,
            TokenKind::Namespace => "`namespace`"@,
            TokenKind::Enum => "`enum`"@,
            TokenKind::Ident => "identifier"@,
            TokenKind::Number => "number"@,
            TokenKind::Str => "string literal"@,
            TokenKind::LParen => "`(`"@,
            TokenKind::RParen => "`)`"@,
            TokenKind::LBracket => "`[`"@,
            TokenKind::RBracket => "`]`"@,
            TokenKind::LBrace => "`{`"@,
            TokenKind::RBrace => "`}`"@,
            TokenKind::Lt => "`<`"@,
            TokenKind::Gt => "`>`"@,
            TokenKind::Backslash => "`\\`"@,
            TokenKind::Dot => "`.`"@,
            TokenKind::Comma => "`,`"@,
            TokenKind::Semi => "`;`"@,
            TokenKind::Pipe => "`|`"@,
            TokenKind::Plus => "`+`"@,
            TokenKind::Eq => "`=`"@,
            TokenKind::Shl => "`<<`"@,
            TokenKind::Unknown => "unrecognized text"@,
            TokenKind::Eof => "end of file"@,
        }
    }

    pub fn describe(self) -> (r: &'static str)
        ensures
            r@ == self.description(),
    {
        match self {
            TokenKind::Definition => "`#definition`",
            TokenKind::DefinitionTemplate => "`#definition_template`",
            TokenKind::EndDefinition => "`#end_definition`",
            TokenKind::Define => "`#define`",
            TokenKind::Ifdef => "`#ifdef`",
            TokenKind::Ifndef => "`#ifndef`",
            TokenKind::Else => "`#else`",
            TokenKind::Endif => "`#endif`",
            TokenKind::Pragma => "`#pragma`",
            TokenKind::Namespace => "`namespace`",
            TokenKind::Enum => "`enum`",
            TokenKind::Ident => "identifier",
            TokenKind::Number => "number",
            TokenKind::Str => "string literal",
            TokenKind::LParen => "`(`",
            TokenKind::RParen => "`)`",
            TokenKind::LBracket => "`[`",
            TokenKind::RBracket => "`]`",
            TokenKind::LBrace => "`{`",
            TokenKind::RBrace => "`}`",
            TokenKind::Lt => "`<`",
            TokenKind::Gt => "`>`",
            TokenKind::Backslash => "`\\`",
            TokenKind::Dot => "`.`",
            TokenKind::Comma => "`,`",
            TokenKind::Semi => "`;`",
            TokenKind::Pipe => "`|`",
            TokenKind::Plus => "`+`",
            TokenKind::Eq => "`=`",
            TokenKind::Shl => "`<<`",
            TokenKind::Unknown => "unrecognized text",
            TokenKind::Eof => "end of file",
        }
    }
}

/// One token: its kind, where it stands, and its text.
#[derive(Debug, Clone)]
pub struct Token {
    pub kind: TokenKind,
    pub span: Span,
    pub source: String,
}

/// What a [`Token`] says.
pub struct TokenView {
    pub kind: TokenKind,
    pub span: Span,
    pub source: Seq<char>,
}

impl View for Token {
    type V = TokenView;

    open spec fn view(&self) -> TokenView {
        TokenView { kind: self.kind, span: self.span, source: self.source@ }
    }
}

/// Why a text cannot be split into tokens.
#[derive(Copy, Clone, Debug, PartialEq, Eq, Structural)]
pub enum LexErrorKind {
    UnterminatedBlockComment,
    UnterminatedString,
}

#[derive(Copy, Clone, Debug, PartialEq, Eq, Structural)]
pub struct LexError {
    pub span: Span,
    pub kind: LexErrorKind,
}

/// What is wrong with a text.
#[derive(Debug, Clone)]
pub enum TextParseErrorKind {
    UnexpectedToken { expected: String, found: TokenKind },
    MissingEndDefinition,
    MismatchedTag { opened: String, closed: String },
    UnterminatedBlockComment,
    UnterminatedString,
    MethodNameIsIndex,
    UnknownItem,
    InvalidNumber,
    UnterminatedEnum,
    UnterminatedNamespace,
    UnterminatedIfDef,
}

/// What a [`TextParseErrorKind`] says.
pub enum TextErrorView {
    UnexpectedToken { expected: Seq<char>, found: TokenKind },
    MissingEndDefinition,
    MismatchedTag { opened: Seq<char>, closed: Seq<char> },
    UnterminatedBlockComment,
    UnterminatedString,
    MethodNameIsIndex,
    UnknownItem,
    InvalidNumber,
    UnterminatedEnum,
    UnterminatedNamespace,
    UnterminatedIfDef,
}

impl View for TextParseErrorKind {
    type V = TextErrorView;

    open spec fn view(&self) -> TextErrorView {
        match *self {
            TextParseErrorKind::UnexpectedToken { expected, found } => {
                TextErrorView::UnexpectedToken { expected: expected@, found }
            },
            TextParseErrorKind::MissingEndDefinition => TextErrorView::MissingEndDefinition,
            TextParseErrorKind::MismatchedTag { opened, closed } => {
                TextErrorView::MismatchedTag { opened: opened@, closed: closed@ }
            },
            TextParseErrorKind::UnterminatedBlockComment => TextErrorView::UnterminatedBlockComment,
            TextParseErrorKind::UnterminatedString => TextErrorView::UnterminatedString,
            TextParseErrorKind::MethodNameIsIndex => TextErrorView::MethodNameIsIndex,
            TextParseErrorKind::UnknownItem => TextErrorView::UnknownItem,
            TextParseErrorKind::InvalidNumber => TextErrorView::InvalidNumber,
            TextParseErrorKind::UnterminatedEnum => TextErrorView::UnterminatedEnum,
            TextParseErrorKind::UnterminatedNamespace => TextErrorView::UnterminatedNamespace,
            TextParseErrorKind::UnterminatedIfDef => TextErrorView::UnterminatedIfDef,
        }
    }
}

impl TextErrorView {
    /// The headline of the error.
    pub open spec fn message(self) -> Seq<char> {
        match self {
            TextErrorView::UnexpectedToken { expected, found } => {
                "expected "@ + expected + ", found "@ + found.description()
            },
            TextErrorView::MissingEndDefinition => "missing #end_definition"@,
            TextErrorView::MismatchedTag { opened, closed } => {
                "mismatched tag: opened <"@ + opened + ">, closed <\\"@ + closed + ">"@
            },
            TextErrorView::UnterminatedBlockComment => "unterminated block comment"@,
            TextErrorView::UnterminatedString => "unterminated string"@,
            TextErrorView::MethodNameIsIndex => "method name cannot be an index"@,
            TextErrorView::UnknownItem => "unknown item"@,
            TextErrorView::InvalidNumber => "invalid number"@,
            TextErrorView::UnterminatedEnum => "unterminated enum"@,
            TextErrorView::UnterminatedNamespace => "unterminated namespace"@,
            TextErrorView::UnterminatedIfDef => "unterminated conditional"@,
        }
    }
}

impl TextParseErrorKind {
    /// The headline of the error.
    pub fn message(&self) -> (r: String)
        ensures
            r@ == self@.message(),
    {
        let mut out = String::new();
        match self {
            TextParseErrorKind::UnexpectedToken { expected, found } => {
                push_text(&mut out, "expected ");
                push_text(&mut out, expected.as_str());
                push_text(&mut out, ", found ");
                push_text(&mut out, found.describe());
            },
            TextParseErrorKind::MissingEndDefinition => push_text(&mut out, "missing #end_definition"),
            TextParseErrorKind::MismatchedTag { opened, closed } => {
                push_text(&mut out, "mismatched tag: opened <");
                push_text(&mut out, opened.as_str());
                push_text(&mut out, ">, closed <\\");
                push_text(&mut out, closed.as_str());
                push_text(&mut out, ">");
            },
            TextParseErrorKind::UnterminatedBlockComment => {
                push_text(&mut out, "unterminated block comment")
            },
            TextParseErrorKind::UnterminatedString => push_text(&mut out, "unterminated string"),
            TextParseErrorKind::MethodNameIsIndex => {
                push_text(&mut out, "method name cannot be an index")
            },
            TextParseErrorKind::UnknownItem => push_text(&mut out, "unknown item"),
            TextParseErrorKind::InvalidNumber => push_text(&mut out, "invalid number"),
            TextParseErrorKind::UnterminatedEnum => push_text(&mut out, "unterminated enum"),
            TextParseErrorKind::UnterminatedNamespace => {
                push_text(&mut out, "unterminated namespace")
            },
            TextParseErrorKind::UnterminatedIfDef => {
                push_text(&mut out, "unterminated conditional")
            },
        }
        assert(out@ =~= self@.message());
        out
    }
}

/// The span and kind that a lex error has as a parse error.
pub fn lex_error_to_parse_error(error: LexError) -> (r: (Span, TextParseErrorKind))
    ensures
        r.0 == error.span,
        r.1@ == error.kind.as_parse_error(),
{
    (
        error.span,
        match error.kind {
            LexErrorKind::UnterminatedBlockComment => TextParseErrorKind::UnterminatedBlockComment,
            LexErrorKind::UnterminatedString => TextParseErrorKind::UnterminatedString,
        },
    )
}

impl LexErrorKind {
    pub open spec fn as_parse_error(self) -> TextErrorView {
        match self {
            LexErrorKind::UnterminatedBlockComment => TextErrorView::UnterminatedBlockComment,
            LexErrorKind::UnterminatedString => TextErrorView::UnterminatedString,
        }
    }
}

// ── Byte offsets ─────────────────────────────────────────────────────────────

/// The byte offset of character `i`: the encoded length of what precedes it.
pub open spec fn offset(chars: Seq<char>, i: int) -> nat {
    vstd::utf8::encode_utf8(chars.take(i)).len()
}

/// Encoding is compatible with concatenation.
pub proof fn lemma_encode_concat(a: Seq<char>, b: Seq<char>)
    ensures
        vstd::utf8::encode_utf8(a + b) == vstd::utf8::encode_utf8(a) + vstd::utf8::encode_utf8(b),
    decreases a.len(),
{
    if a.len() == 0 {
        assert(a + b == b);
    } else {
        assert((a + b).drop_first() == a.drop_first() + b);
        lemma_encode_concat(a.drop_first(), b);
        assert(vstd::utf8::encode_utf8(a + b) == vstd::utf8::encode_utf8(a) + vstd::utf8::encode_utf8(b));
    }
}

proof fn lemma_offset_step(chars: Seq<char>, i: int)
    requires
        0 <= i < chars.len(),
    ensures
        offset(chars, i + 1) == offset(chars, i) + vstd::utf8::encode_scalar(chars[i] as u32).len(),
{
    assert(chars.take(i + 1) == chars.take(i) + seq![chars[i]]);
    lemma_encode_concat(chars.take(i), seq![chars[i]]);
    assert(seq![chars[i]].drop_first() == Seq::<char>::empty());
    assert(vstd::utf8::encode_utf8(seq![chars[i]]) == vstd::utf8::encode_scalar(chars[i] as u32) + vstd::utf8::encode_utf8(
        seq![chars[i]].drop_first(),
    ));
}

/// Offsets grow with the position and stay within the encoded text.
pub proof fn lemma_offset_order(chars: Seq<char>, i: int, j: int)
    requires
        0 <= i <= j <= chars.len(),
    ensures
        offset(chars, i) <= offset(chars, j) <= vstd::utf8::encode_utf8(chars).len(),
        vstd::utf8::encode_utf8(chars.subrange(i, j)) == vstd::utf8::encode_utf8(chars).subrange(
            offset(chars, i) as int,
            offset(chars, j) as int,
        ),
{
    let a = chars.take(i);
    let b = chars.subrange(i, j);
    let c = chars.skip(j);
    assert(chars.take(j) == a + b);
    assert(chars == a + b + c);
    lemma_encode_concat(a, b);
    lemma_encode_concat(a + b, c);
    assert(vstd::utf8::encode_utf8(b) == vstd::utf8::encode_utf8(chars).subrange(
        offset(chars, i) as int,
        offset(chars, j) as int,
    ));
}

/// The offsets of all character positions, the end included.
fn offsets(input: &str, chars: &Vec<char>) -> (r: Vec<usize>)
    requires
        chars@ == input@,
    ensures
        r@.len() == chars@.len() + 1,
        forall|i: int| 0 <= i <= chars@.len() ==> #[trigger] r@[i] == offset(chars@, i),
{
    let total: usize = input.as_bytes().len();
    assert(total == vstd::utf8::encode_utf8(chars@).len());
    let mut out: Vec<usize> = Vec::new();
    out.push(0);
    assert(chars@.take(0) == Seq::<char>::empty());
    let mut at: usize = 0;
    let mut i: usize = 0;
    while i < chars.len()
        invariant
            i <= chars@.len(),
            out@.len() == i + 1,
            at == offset(chars@, i as int),
            total == vstd::utf8::encode_utf8(chars@).len(),
            forall|j: int| 0 <= j <= i ==> #[trigger] out@[j] == offset(chars@, j),
        decreases chars@.len() - i,
    {
        let c = chars[i] as u32;
        proof {
            lemma_offset_step(chars@, i as int);
            lemma_offset_order(chars@, i as int + 1, chars@.len() as int);
            vstd::utf8::char_is_scalar(chars@[i as int]);
        }
        let width: usize = if c < 0x80 {
            1
        } else if c < 0x800 {
            2
        } else if c < 0x10000 {
            3
        } else {
            4
        };
        at = at + width;
        out.push(at);
        i = i + 1;
    }
    out
}

// ── Character classes and runs ───────────────────────────────────────────────

#[derive(Copy, Clone, Debug, PartialEq, Eq, Structural)]
pub enum CharClass {
    /// Blank space and line ends.
    Space,
    /// Letters, digits and `_`.
    Word,
    Digit,
    /// `*`, which decorates banner lines.
    Star,
    /// Anything but a line end.
    Line,
    /// Anything but a line end or a quote.
    Quoted,
    /// What an unclosed comment opener may be followed by without being an
    /// error: blank space and the characters of comment markers.
    Decoration,
}

impl CharClass {
    pub open spec fn has(self, c: char) -> bool {
        match self {
            CharClass::Space => c == ' ' || c == '\t' || c == '\n' || c == '\r',
            CharClass::Word => {
                ('a' <= c && c <= 'z') || ('A' <= c && c <= 'Z') || strings::is_digit(c) || c == '_'
            },
            CharClass::Digit => strings::is_digit(c),
            CharClass::Star => c == '*',
            CharClass::Line => c != '\n',
            CharClass::Quoted => c != '\n' && c != '"',
            CharClass::Decoration => {
                c == ' ' || c == '\t' || c == '\n' || c == '\r' || c == '*' || c == '/'
            },
        }
    }

    fn test(self, c: char) -> (r: bool)
        ensures
            r == self.has(c),
    {
        match self {
            CharClass::Space => c == ' ' || c == '\t' || c == '\n' || c == '\r',
            CharClass::Word => {
                ('a' <= c && c <= 'z') || ('A' <= c && c <= 'Z') || digit(c) || c == '_'
            },
            CharClass::Digit => digit(c),
            CharClass::Star => c == '*',
            CharClass::Line => c != '\n',
            CharClass::Quoted => c != '\n' && c != '"',
            CharClass::Decoration => {
                c == ' ' || c == '\t' || c == '\n' || c == '\r' || c == '*' || c == '/'
            },
        }
    }
}

/// The end of the run of `class` characters that starts at `i`.
pub open spec fn run_end(chars: Seq<char>, i: int, class: CharClass) -> int
    decreases chars.len() - i,
{
    if 0 <= i < chars.len() && class.has(chars[i]) {
        run_end(chars, i + 1, class)
    } else {
        i
    }
}

proof fn lemma_run_end(chars: Seq<char>, i: int, class: CharClass)
    requires
        0 <= i <= chars.len(),
    ensures
        i <= run_end(chars, i, class) <= chars.len(),
    decreases chars.len() - i,
{
    if i < chars.len() && class.has(chars[i]) {
        lemma_run_end(chars, i + 1, class);
    }
}

pub fn end_of_run(chars: &Vec<char>, from: usize, class: CharClass) -> (r: usize)
    requires
        from <= chars@.len(),
    ensures
        r == run_end(chars@, from as int, class),
        from <= r <= chars@.len(),
{
    let mut i: usize = from;
    while i < chars.len() && class.test(chars[i])
        invariant
            from <= i <= chars@.len(),
            run_end(chars@, i as int, class) == run_end(chars@, from as int, class),
        decreases chars@.len() - i,
    {
        i = i + 1;
    }
    i
}

/// Where the first `*/` at or after `i` starts.
pub open spec fn comment_close(chars: Seq<char>, i: int) -> Option<int>
    decreases chars.len() - i,
{
    if i < 0 || i + 1 >= chars.len() {
        None
    } else if chars[i] == '*' && chars[i + 1] == '/' {
        Some(i)
    } else {
        comment_close(chars, i + 1)
    }
}

proof fn lemma_comment_close(chars: Seq<char>, i: int)
    requires
        0 <= i,
    ensures
        comment_close(chars, i) matches Some(j) ==> i <= j && j + 1 < chars.len(),
    decreases chars.len() - i,
{
    if i + 1 < chars.len() && !(chars[i] == '*' && chars[i + 1] == '/') {
        lemma_comment_close(chars, i + 1);
    }
}

fn find_comment_close(chars: &Vec<char>, from: usize) -> (r: Option<usize>)
    requires
        from <= chars@.len(),
    ensures
        match r {
            Some(j) => comment_close(chars@, from as int) == Some(j as int) && from <= j && j + 1
                < chars@.len(),
            None => comment_close(chars@, from as int) is None,
        },
{
    let mut i: usize = from;
    while i < chars.len() && i + 1 < chars.len()
        invariant
            from <= i <= chars@.len(),
            comment_close(chars@, i as int) == comment_close(chars@, from as int),
        decreases chars@.len() - i,
    {
        if chars[i] == '*' && chars[i + 1] == '/' {
            return Some(i);
        }
        i = i + 1;
    }
    None
}

// ── One scan step ────────────────────────────────────────────────────────────

/// What stands at a position of the text.
#[allow(inconsistent_fields)]
pub enum Scan {
    /// Blank space, a comment or decoration, up to `end`.
    Skip { end: int },
    /// A token, up to `end`.
    Found { kind: TokenKind, end: int },
    /// Text that cannot be a token, up to `end`.
    Bad { kind: LexErrorKind, end: int },
}

/// The kind of the word `word`.
pub open spec fn word_kind(word: Seq<char>) -> TokenKind {
    if word == "enum"@ {
        TokenKind::Enum
    } else if word == "namespace"@ {
        TokenKind::Namespace
    } else {
        TokenKind::Ident
    }
}

/// The kind of the directive `#word`.
pub open spec fn directive_kind(word: Seq<char>) -> TokenKind {
    if word == "definition"@ {
        TokenKind::Definition
    } else if word == "definition_template"@ {
        TokenKind::DefinitionTemplate
    } else if word == "end_definition"@ {
        TokenKind::EndDefinition
    } else if word == "define"@ {
        TokenKind::Define
    } else if word == "ifdef"@ {
        TokenKind::Ifdef
    } else if word == "ifndef"@ {
        TokenKind::Ifndef
    } else if word == "else"@ {
        TokenKind::Else
    } else if word == "endif"@ {
        TokenKind::Endif
    } else if word == "pragma"@ {
        TokenKind::Pragma
    } else {
        TokenKind::Unknown
    }
}

/// The kind of the single character `c`.
pub open spec fn mark_kind(c: char) -> TokenKind {
    if c == '(' {
        TokenKind::LParen
    } else if c == ')' {
        TokenKind::RParen
    } else if c == '[' {
        TokenKind::LBracket
    } else if c == ']' {
        TokenKind::RBracket
    } else if c == '{' {
        TokenKind::LBrace
    } else if c == '}' {
        TokenKind::RBrace
    } else if c == '<' {
        TokenKind::Lt
    } else if c == '>' {
        TokenKind::Gt
    } else if c == '\\' {
        TokenKind::Backslash
    } else if c == '.' {
        TokenKind::Dot
    } else if c == ',' {
        TokenKind::Comma
    } else if c == ';' {
        TokenKind::Semi
    } else if c == '|' {
        TokenKind::Pipe
    } else if c == '+' {
        TokenKind::Plus
    } else if c == '=' {
        TokenKind::Eq
    } else {
        TokenKind::Unknown
    }
}

/// Whether character `i` exists and is `c`.
pub open spec fn char_is(chars: Seq<char>, i: int, c: char) -> bool {
    0 <= i < chars.len() && chars[i] == c
}

/// The end of the number that starts at `i`: an optional `-`, digits, an
/// optional fraction whose digits may be missing, and an optional `f` that no
/// word continues.
pub open spec fn number_end(chars: Seq<char>, i: int) -> int {
    let whole = run_end(
        chars,
        if char_is(chars, i, '-') {
            i + 1
        } else {
            i
        },
        CharClass::Digit,
    );
    let fraction = if char_is(chars, whole, '.') {
        run_end(chars, whole + 1, CharClass::Digit)
    } else {
        whole
    };
    if char_is(chars, fraction, 'f') && !(fraction + 1 < chars.len() && CharClass::Word.has(
        chars[fraction + 1],
    )) {
        fraction + 1
    } else {
        fraction
    }
}

/// What stands at position `i` of the text.
pub open spec fn scan(chars: Seq<char>, i: int) -> Scan {
    let c = chars[i];
    if CharClass::Space.has(c) {
        Scan::Skip { end: run_end(chars, i, CharClass::Space) }
    } else if c == '*' {
        Scan::Skip { end: run_end(chars, i, CharClass::Star) }
    } else if c == '/' && char_is(chars, i + 1, '/') {
        Scan::Skip { end: run_end(chars, i, CharClass::Line) }
    } else if c == '/' && char_is(chars, i + 1, '*') {
        match comment_close(chars, i + 2) {
            Some(j) => Scan::Skip { end: j + 2 },
            None => if run_end(chars, i + 2, CharClass::Decoration) == chars.len() {
                Scan::Skip { end: chars.len() as int }
            } else {
                Scan::Bad {
                    kind: LexErrorKind::UnterminatedBlockComment,
                    end: chars.len() as int,
                }
            },
        }
    } else if c == '"' {
        let close = run_end(chars, i + 1, CharClass::Quoted);
        if char_is(chars, close, '"') {
            Scan::Found { kind: TokenKind::Str, end: close + 1 }
        } else {
            Scan::Bad { kind: LexErrorKind::UnterminatedString, end: close }
        }
    } else if strings::is_digit(c) || (c == '-' && i + 1 < chars.len() && strings::is_digit(chars[i + 1])) {
        Scan::Found { kind: TokenKind::Number, end: number_end(chars, i) }
    } else if CharClass::Word.has(c) {
        let end = run_end(chars, i, CharClass::Word);
        Scan::Found { kind: word_kind(chars.subrange(i, end)), end }
    } else if c == '#' {
        let end = run_end(chars, i + 1, CharClass::Word);
        Scan::Found { kind: directive_kind(chars.subrange(i + 1, end)), end }
    } else if c == '<' && char_is(chars, i + 1, '<') {
        Scan::Found { kind: TokenKind::Shl, end: i + 2 }
    } else {
        Scan::Found { kind: mark_kind(c), end: i + 1 }
    }
}

impl Scan {
    pub open spec fn end(self) -> int {
        match self {
            Scan::Skip { end } => end,
            Scan::Found { end, .. } => end,
            Scan::Bad { end, .. } => end,
        }
    }
}

/// A scan step covers at least one character and stays within the text.
pub proof fn lemma_scan_advances(chars: Seq<char>, i: int)
    requires
        0 <= i < chars.len(),
    ensures
        i < scan(chars, i).end() <= chars.len(),
{
    let c = chars[i];
    lemma_run_end(chars, i + 1, CharClass::Space);
    lemma_run_end(chars, i + 1, CharClass::Star);
    lemma_run_end(chars, i + 1, CharClass::Line);
    lemma_run_end(chars, i + 1, CharClass::Quoted);
    lemma_run_end(chars, i + 1, CharClass::Word);
    lemma_run_end(chars, i + 1, CharClass::Digit);
    lemma_comment_close(chars, i + 2);
    if strings::is_digit(c) || (c == '-' && i + 1 < chars.len() && strings::is_digit(chars[i + 1])) {
        let from = if char_is(chars, i, '-') {
            i + 1
        } else {
            i
        };
        lemma_run_end(chars, from, CharClass::Digit);
        lemma_run_end(chars, from + 1, CharClass::Digit);
        let whole = run_end(chars, from, CharClass::Digit);
        assert(whole == run_end(chars, from + 1, CharClass::Digit));
        if whole < chars.len() {
            lemma_run_end(chars, whole + 1, CharClass::Digit);
        }
    }
}

/// The token that a scan step found between positions `i` and `end`.
pub open spec fn token_at(
    chars: Seq<char>,
    file: FileId,
    i: int,
    end: int,
    kind: TokenKind,
) -> TokenView {
    TokenView {
        kind,
        span: Span { file, start: offset(chars, i) as usize, end: offset(chars, end) as usize },
        source: chars.subrange(i, end),
    }
}

/// The tokens of the text from position `i` on, behind those in `acc`; the last
/// one is the end-of-file token.
pub open spec fn tokens_from(
    chars: Seq<char>,
    file: FileId,
    i: int,
    acc: Seq<TokenView>,
) -> Result<Seq<TokenView>, LexError>
    decreases chars.len() - i,
{
    let n = chars.len() as int;
    if i < 0 || i >= n {
        Ok(acc.push(token_at(chars, file, n, n, TokenKind::Eof)))
    } else {
        proof {
            lemma_scan_advances(chars, i);
        }
        match scan(chars, i) {
            Scan::Skip { end } => tokens_from(chars, file, end, acc),
            Scan::Found { kind, end } => tokens_from(
                chars,
                file,
                end,
                acc.push(token_at(chars, file, i, end, kind)),
            ),
            Scan::Bad { kind, end } => Err(
                LexError {
                    span: Span {
                        file,
                        start: offset(chars, i) as usize,
                        end: offset(chars, end) as usize,
                    },
                    kind,
                },
            ),
        }
    }
}

/// What lexing a text gives: its tokens, or the first lexical error.
pub open spec fn lexed(chars: Seq<char>, file: FileId) -> Result<Seq<TokenView>, LexError> {
    tokens_from(chars, file, 0, Seq::empty())
}

// ── The executable lexer ─────────────────────────────────────────────────────

fn kind_of_word(word: &str) -> (r: TokenKind)
    ensures
        r == word_kind(word@),
{
    if same(word, "enum") {
        TokenKind::Enum
    } else if same(word, "namespace") {
        TokenKind::Namespace
    } else {
        TokenKind::Ident
    }
}

fn kind_of_directive(word: &str) -> (r: TokenKind)
    ensures
        r == directive_kind(word@),
{
    if same(word, "definition") {
        TokenKind::Definition
    } else if same(word, "definition_template") {
        TokenKind::DefinitionTemplate
    } else if same(word, "end_definition") {
        TokenKind::EndDefinition
    } else if same(word, "define") {
        TokenKind::Define
    } else if same(word, "ifdef") {
        TokenKind::Ifdef
    } else if same(word, "ifndef") {
        TokenKind::Ifndef
    } else if same(word, "else") {
        TokenKind::Else
    } else if same(word, "endif") {
        TokenKind::Endif
    } else if same(word, "pragma") {
        TokenKind::Pragma
    } else {
        TokenKind::Unknown
    }
}

fn kind_of_mark(c: char) -> (r: TokenKind)
    ensures
        r == mark_kind(c),
{
    if c == '(' {
        TokenKind::LParen
    } else if c == ')' {
        TokenKind::RParen
    } else if c == '[' {
        TokenKind::LBracket
    } else if c == ']' {
        TokenKind::RBracket
    } else if c == '{' {
        TokenKind::LBrace
    } else if c == '}' {
        TokenKind::RBrace
    } else if c == '<' {
        TokenKind::Lt
    } else if c == '>' {
        TokenKind::Gt
    } else if c == '\\' {
        TokenKind::Backslash
    } else if c == '.' {
        TokenKind::Dot
    } else if c == ',' {
        TokenKind::Comma
    } else if c == ';' {
        TokenKind::Semi
    } else if c == '|' {
        TokenKind::Pipe
    } else if c == '+' {
        TokenKind::Plus
    } else if c == '=' {
        TokenKind::Eq
    } else {
        TokenKind::Unknown
    }
}

fn test_char(chars: &Vec<char>, i: usize, c: char) -> (r: bool)
    ensures
        r == char_is(chars@, i as int, c),
{
    i < chars.len() && chars[i] == c
}

fn end_of_number(chars: &Vec<char>, i: usize) -> (r: usize)
    requires
        i < chars@.len(),
    ensures
        r == number_end(chars@, i as int),
        r <= chars@.len(),
{
    let n: usize = chars.len();
    let from: usize = if test_char(chars, i, '-') {
        i + 1
    } else {
        i
    };
    let whole = end_of_run(chars, from, CharClass::Digit);
    let fraction = if test_char(chars, whole, '.') {
        end_of_run(chars, whole + 1, CharClass::Digit)
    } else {
        whole
    };
    if test_char(chars, fraction, 'f') && !(fraction + 1 < n && CharClass::Word.test(
        chars[fraction + 1],
    )) {
        fraction + 1
    } else {
        fraction
    }
}

/// One scan step: the kind of the token, or `None` for text to skip, and where
/// the step ends; or the lexical error and where it ends.
fn step(chars: &Vec<char>, i: usize) -> (r: Result<(Option<TokenKind>, usize), (
    LexErrorKind,
    usize,
)>)
    requires
        i < chars@.len(),
    ensures
        match r {
            Ok((None, end)) => scan(chars@, i as int) == (Scan::Skip { end: end as int }),
            Ok((Some(kind), end)) => scan(chars@, i as int) == (Scan::Found {
                kind,
                end: end as int,
            }),
            Err((kind, end)) => scan(chars@, i as int) == (Scan::Bad { kind, end: end as int }),
        },
        r matches Ok((Some(TokenKind::Str), end)) ==> end >= i + 2,
{
    let n: usize = chars.len();
    let c = chars[i];
    if CharClass::Space.test(c) {
        Ok((None, end_of_run(chars, i, CharClass::Space)))
    } else if c == '*' {
        Ok((None, end_of_run(chars, i, CharClass::Star)))
    } else if c == '/' && test_char(chars, i + 1, '/') {
        Ok((None, end_of_run(chars, i, CharClass::Line)))
    } else if c == '/' && test_char(chars, i + 1, '*') {
        match find_comment_close(chars, i + 2) {
            Some(j) => Ok((None, j + 2)),
            None => if end_of_run(chars, i + 2, CharClass::Decoration) == n {
                Ok((None, n))
            } else {
                Err((LexErrorKind::UnterminatedBlockComment, n))
            },
        }
    } else if c == '"' {
        let close = end_of_run(chars, i + 1, CharClass::Quoted);
        if test_char(chars, close, '"') {
            Ok((Some(TokenKind::Str), close + 1))
        } else {
            Err((LexErrorKind::UnterminatedString, close))
        }
    } else if digit(c) || (c == '-' && i + 1 < n && digit(chars[i + 1])) {
        Ok((Some(TokenKind::Number), end_of_number(chars, i)))
    } else if CharClass::Word.test(c) {
        let end = end_of_run(chars, i, CharClass::Word);
        let word = text_between(chars, i, end);
        Ok((Some(kind_of_word(word.as_str())), end))
    } else if c == '#' {
        let end = end_of_run(chars, i + 1, CharClass::Word);
        let word = text_between(chars, i + 1, end);
        Ok((Some(kind_of_directive(word.as_str())), end))
    } else if c == '<' && test_char(chars, i + 1, '<') {
        Ok((Some(TokenKind::Shl), i + 2))
    } else {
        Ok((Some(kind_of_mark(c)), i + 1))
    }
}

/// What holds of the tokens of any text: the last one is the end-of-file token,
/// and a string literal has its two quotes.
pub open spec fn well_lexed(tokens: Seq<TokenView>) -> bool {
    &&& tokens.len() > 0
    &&& tokens.last().kind == TokenKind::Eof
    &&& forall|i: int|
        0 <= i < tokens.len() && (#[trigger] tokens[i]).kind == TokenKind::Str
            ==> tokens[i].source.len() >= 2
}

/// Split `input` into tokens.
pub fn lex(input: &str, file: FileId) -> (r: Result<Vec<Token>, LexError>)
    ensures
        match r {
            Ok(tokens) => lexed(input@, file) == Ok::<Seq<TokenView>, LexError>(base::views(tokens@))
                && well_lexed(base::views(tokens@)),
            Err(e) => lexed(input@, file) == Err::<Seq<TokenView>, LexError>(e),
        },
{
    let chars = chars_of(input);
    let at = offsets(input, &chars);
    let n: usize = chars.len();
    let mut out: Vec<Token> = Vec::new();
    let mut i: usize = 0;
    assert(base::views(out@) == Seq::<TokenView>::empty());
    while i < n
        invariant
            chars@ == input@,
            n == chars@.len(),
            i <= n,
            at@.len() == n + 1,
            forall|j: int| 0 <= j <= n ==> #[trigger] at@[j] == offset(chars@, j),
            tokens_from(chars@, file, i as int, base::views(out@)) == lexed(chars@, file),
            forall|k: int|
                0 <= k < out@.len() && (#[trigger] base::views(out@)[k]).kind == TokenKind::Str
                    ==> base::views(out@)[k].source.len() >= 2,
        decreases n - i,
    {
        proof {
            lemma_scan_advances(chars@, i as int);
        }
        let ghost before = base::views(out@);
        match step(&chars, i) {
            Ok((found, end)) => {
                match found {
                    Some(kind) => {
                        let token = Token {
                            kind,
                            span: Span { file, start: at[i], end: at[end] },
                            source: text_between(&chars, i, end),
                        };
                        assert(token@ == token_at(chars@, file, i as int, end as int, kind));
                        out.push(token);
                        assert(base::views(out@) == before.push(
                            token_at(chars@, file, i as int, end as int, kind),
                        ));
                    },
                    None => {},
                }
                i = end;
            },
            Err((kind, end)) => {
                return Err(LexError { span: Span { file, start: at[i], end: at[end] }, kind });
            },
        }
    }
    let ghost before = base::views(out@);
    let eof = Token {
        kind: TokenKind::Eof,
        span: Span { file, start: at[n], end: at[n] },
        source: text_between(&chars, n, n),
    };
    out.push(eof);
    assert(base::views(out@) == before.push(
        token_at(chars@, file, n as int, n as int, TokenKind::Eof),
    ));
    Ok(out)
}

// ── Laws ─────────────────────────────────────────────────────────────────────

/// Whether a token stands in the text where its span says.
pub open spec fn stands(chars: Seq<char>, file: FileId, t: TokenView) -> bool {
    let bytes = vstd::utf8::encode_utf8(chars);
    &&& t.span.file == file
    &&& t.span.start <= t.span.end <= bytes.len()
    &&& t.kind != TokenKind::Eof ==> t.source.len() > 0
    &&& vstd::utf8::encode_utf8(t.source) == bytes.subrange(t.span.start as int, t.span.end as int)
}

/// Whether each token ends where the next one begins, or before.
pub open spec fn in_sequence(tokens: Seq<TokenView>) -> bool {
    forall|i: int, j: int| 0 <= i < j < tokens.len() ==> tokens[i].span.end <= tokens[j].span.start
}

proof fn lemma_tokens_stand(chars: Seq<char>, file: FileId, i: int, acc: Seq<TokenView>)
    requires
        0 <= i <= chars.len(),
        vstd::utf8::encode_utf8(chars).len() <= usize::MAX,
        in_sequence(acc),
        forall|k: int|
            0 <= k < acc.len() ==> stands(chars, file, #[trigger] acc[k]) && acc[k].span.end
                <= offset(chars, i),
    ensures
        match tokens_from(chars, file, i, acc) {
            Ok(tokens) => in_sequence(tokens) && forall|k: int|
                0 <= k < tokens.len() ==> stands(chars, file, #[trigger] tokens[k]),
            Err(e) => e.span.file == file && e.span.start <= e.span.end
                <= vstd::utf8::encode_utf8(chars).len(),
        },
    decreases chars.len() - i,
{
    let n = chars.len() as int;
    if i >= n {
        lemma_offset_order(chars, n, n);
    } else {
        lemma_scan_advances(chars, i);
        let end = scan(chars, i).end();
        lemma_offset_order(chars, i, end);
        match scan(chars, i) {
            Scan::Skip { .. } => lemma_tokens_stand(chars, file, end, acc),
            Scan::Found { kind, .. } => {
                let next = acc.push(token_at(chars, file, i, end, kind));
                lemma_tokens_stand(chars, file, end, next);
            },
            Scan::Bad { .. } => {},
        }
    }
}

/// Every token stands in the text where its span says, tokens follow one another
/// without overlap, and a lexical error points into the text.
pub proof fn tokens_stand_in_the_text(chars: Seq<char>, file: FileId)
    requires
        vstd::utf8::encode_utf8(chars).len() <= usize::MAX,
    ensures
        match lexed(chars, file) {
            Ok(tokens) => in_sequence(tokens) && forall|k: int|
                0 <= k < tokens.len() ==> stands(chars, file, #[trigger] tokens[k]),
            Err(e) => e.span.file == file && e.span.start <= e.span.end
                <= vstd::utf8::encode_utf8(chars).len(),
        },
{
    lemma_tokens_stand(chars, file, 0, Seq::empty());
}

/// Every token names the file that was read, and the last is the end of the file.
pub proof fn lemma_tokens_in(chars: Seq<char>, file: FileId, i: int, acc: Seq<TokenView>)
    requires
        forall|k: int| 0 <= k < acc.len() ==> (#[trigger] acc[k]).span.file == file,
    ensures
        match tokens_from(chars, file, i, acc) {
            Ok(tokens) => tokens.len() > 0 && tokens.last().kind == TokenKind::Eof && forall|k: int|
                0 <= k < tokens.len() ==> (#[trigger] tokens[k]).span.file == file,
            Err(e) => e.span.file == file,
        },
    decreases chars.len() - i,
{
    if 0 <= i < chars.len() {
        lemma_scan_advances(chars, i);
        match scan(chars, i) {
            Scan::Skip { end } => lemma_tokens_in(chars, file, end, acc),
            Scan::Found { kind, end } => lemma_tokens_in(
                chars,
                file,
                end,
                acc.push(token_at(chars, file, i, end, kind)),
            ),
            Scan::Bad { .. } => {},
        }
    }
}

} // verus!
