//! A position in a token sequence.

use vstd::prelude::*;

use crate::strings::same;
use crate::text::base;
use crate::text::base::{FileId, ParseError, Span, Spanned};
use crate::text::grammar;
use crate::text::lexer;
use crate::text::lexer::{TextParseErrorKind, Token, TokenKind, TokenView};

verus! {

pub type DefParseError = ParseError<TextParseErrorKind>;

/// The tokens of a text and the position that is read next.
pub struct Cursor {
    tokens: Vec<Token>,
    pos: usize,
}

/// What a [`Cursor`] stands for.
pub struct CursorView {
    pub tokens: Seq<TokenView>,
    pub pos: int,
}

impl View for Cursor {
    type V = CursorView;

    closed spec fn view(&self) -> CursorView {
        CursorView { tokens: base::views(self.tokens@), pos: self.pos as int }
    }
}

impl CursorView {
    /// The tokens are those of some text, and the position is at one of them.
    pub open spec fn ready(self) -> bool {
        lexer::well_lexed(self.tokens) && 0 <= self.pos < self.tokens.len()
    }

    /// How many tokens are left to read.
    pub open spec fn left(self) -> nat {
        grammar::left(self.tokens, self.pos)
    }
}

impl Cursor {
    /// A cursor at the first of `tokens`.
    pub fn new(tokens: Vec<Token>) -> (r: Cursor)
        requires
            lexer::well_lexed(base::views(tokens@)),
        ensures
            r@.tokens == base::views(tokens@),
            r@.pos == 0,
            r@.ready(),
    {
        Cursor { tokens, pos: 0 }
    }

    /// The token at the position.
    pub fn peek(&self) -> (r: &Token)
        requires
            self@.ready(),
        ensures
            r@ == grammar::at(self@.tokens, self@.pos),
    {
        &self.tokens[self.pos]
    }

    pub fn kind(&self) -> (r: TokenKind)
        requires
            self@.ready(),
        ensures
            r == grammar::kind(self@.tokens, self@.pos),
    {
        self.peek().kind
    }

    pub fn span(&self) -> (r: Span)
        requires
            self@.ready(),
        ensures
            r == grammar::at(self@.tokens, self@.pos).span,
    {
        self.peek().span
    }

    /// The kind of the token `ahead` places on.
    pub fn kind_at(&self, ahead: usize) -> (r: TokenKind)
        requires
            self@.ready(),
        ensures
            r == grammar::kind(self@.tokens, self@.pos + ahead),
    {
        let n: usize = self.tokens.len();
        if ahead < n - self.pos {
            let t = &self.tokens[self.pos + ahead];
            assert(t@ == grammar::at(self@.tokens, self@.pos + ahead));
            t.kind
        } else {
            TokenKind::Eof
        }
    }

    pub fn at(&self, kind: TokenKind) -> (r: bool)
        requires
            self@.ready(),
        ensures
            r == (grammar::kind(self@.tokens, self@.pos) == kind),
    {
        self.kind() == kind
    }

    /// Whether the word `word` is next.
    pub fn at_ident(&self, word: &str) -> (r: bool)
        requires
            self@.ready(),
        ensures
            r == grammar::word_at(self@.tokens, self@.pos, word@),
    {
        self.kind() == TokenKind::Ident && same(self.peek().source.as_str(), word)
    }

    /// Step over the token at the position, which is not the end of the file.
    pub fn bump(&mut self)
        requires
            old(self)@.ready(),
            grammar::kind(old(self)@.tokens, old(self)@.pos) != TokenKind::Eof,
        ensures
            final(self)@.ready(),
            final(self)@.tokens == old(self)@.tokens,
            final(self)@.pos == old(self)@.pos + 1,
    {
        let n: usize = self.tokens.len();
        assert(self@.tokens[n - 1].kind == TokenKind::Eof);
        self.pos = self.pos + 1;
    }

    /// Step over a token of kind `kind`, if one is next.
    pub fn skip(&mut self, kind: TokenKind)
        requires
            old(self)@.ready(),
            kind != TokenKind::Eof,
        ensures
            final(self)@.ready(),
            final(self)@.tokens == old(self)@.tokens,
            final(self)@.pos == grammar::optional(old(self)@.tokens, old(self)@.pos, kind),
    {
        if self.at(kind) {
            self.bump();
        }
    }

    /// The file that the tokens are from.
    pub fn file(&self) -> (r: FileId)
        requires
            self@.ready(),
        ensures
            r == grammar::file(self@.tokens),
    {
        let t = &self.tokens[0];
        assert(t@ == grammar::at(self@.tokens, 0));
        t.span.file
    }

    /// The span of the token before the position.
    pub fn prev_span(&self) -> (r: Span)
        requires
            self@.ready(),
        ensures
            r == grammar::at(self@.tokens, self@.pos - 1).span,
    {
        if self.pos == 0 {
            Span::synthetic()
        } else {
            let t = &self.tokens[self.pos - 1];
            assert(t@ == grammar::at(self@.tokens, self@.pos - 1));
            t.span
        }
    }

    /// From `start` to the end of the token before the position.
    pub fn span_from(&self, start: usize) -> (r: Span)
        requires
            self@.ready(),
        ensures
            r == (Span {
                file: grammar::file(self@.tokens),
                start,
                end: grammar::at(self@.tokens, self@.pos - 1).span.end,
            }),
    {
        Span { file: self.file(), start, end: self.prev_span().end }
    }

    /// The error `kind` at the position.
    pub fn err(&self, kind: TextParseErrorKind) -> (r: DefParseError)
        requires
            self@.ready(),
        ensures
            r@ == grammar::fail(self@.tokens, self@.pos, kind@),
    {
        ParseError::new(self.span(), kind)
    }

    /// The error of finding the token at the position where `expected` should be.
    pub fn unexpected(&self, expected: &str) -> (r: DefParseError)
        requires
            self@.ready(),
        ensures
            r@ == grammar::unexpected(self@.tokens, self@.pos, expected@),
    {
        self.err(
            TextParseErrorKind::UnexpectedToken {
                expected: expected.to_owned(),
                found: self.kind(),
            },
        )
    }

    /// Step over a token of kind `kind`.
    pub fn expect(&mut self, kind: TokenKind) -> (r: Result<(), DefParseError>)
        requires
            old(self)@.ready(),
            kind != TokenKind::Eof,
        ensures
            final(self)@.ready(),
            final(self)@.tokens == old(self)@.tokens,
            match (r, grammar::expect(old(self)@.tokens, old(self)@.pos, kind)) {
                (Ok(_), Ok((_, q))) => final(self)@.pos == q,
                (Err(e), Err(f)) => e@ == f && final(self)@.pos == old(self)@.pos,
                _ => false,
            },
    {
        if self.at(kind) {
            self.bump();
            Ok(())
        } else {
            Err(self.unexpected(kind.describe()))
        }
    }

    /// Read an identifier.
    pub fn expect_ident(&mut self, what: &str) -> (r: Result<String, DefParseError>)
        requires
            old(self)@.ready(),
        ensures
            final(self)@.ready(),
            final(self)@.tokens == old(self)@.tokens,
            match (r, grammar::ident(old(self)@.tokens, old(self)@.pos, what@)) {
                (Ok(s), Ok((v, q))) => s@ == v && final(self)@.pos == q,
                (Err(e), Err(f)) => e@ == f && final(self)@.pos == old(self)@.pos,
                _ => false,
            },
    {
        if self.at(TokenKind::Ident) {
            let s = self.peek().source.clone();
            self.bump();
            Ok(s)
        } else {
            Err(self.unexpected(what))
        }
    }

    /// Read an identifier with its span.
    pub fn expect_ident_spanned(&mut self, what: &str) -> (r: Result<
        Spanned<String>,
        DefParseError,
    >)
        requires
            old(self)@.ready(),
        ensures
            final(self)@.ready(),
            final(self)@.tokens == old(self)@.tokens,
            match (r, grammar::ident_spanned(old(self)@.tokens, old(self)@.pos, what@)) {
                (Ok(s), Ok((v, q))) => s@ == v && final(self)@.pos == q,
                (Err(e), Err(f)) => e@ == f && final(self)@.pos == old(self)@.pos,
                _ => false,
            },
    {
        let span = self.span();
        match self.expect_ident(what) {
            Ok(value) => Ok(Spanned { span, value }),
            Err(e) => Err(e),
        }
    }
}

} // verus!
