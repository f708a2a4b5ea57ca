//! The scanner: a cursor over a source buffer that emits one token per step.

use vstd::prelude::*;
use vstd::string::StringSliceAdditionalSpecFns;
use vstd::utf8::*;
use crate::parse::grammar::{
    byte_at, column_at, is_maximal_run, lemma_line_at_bounds, lemma_maximal_run_is_run_end,
    lemma_run_end_is_maximal, lemma_token_end_bounds, line_at, literal_text, run_end, scan,
    scan_from, token_at, token_end, token_of, ByteClass, AT_SIGN, CLOSE_BRACKET, CLOSE_PAREN,
    COLON, COMMA, DASH, DIGIT_NINE, DIGIT_ZERO, GREATER, HASH, LOWER_A, LOWER_Z, NEWLINE,
    OPEN_BRACKET, OPEN_PAREN, SPACE, TAB, UNDERSCORE, UPPER_A, UPPER_Z,
};
use crate::parse::text::{
    lemma_char_starts_after_ascii, lemma_char_starts_at_ascii, lemma_text_between_boundaries,
};
use crate::parse::token::{token_views, Pos, Token, TokenKind, TokenKindView};

verus! {

/// A scanner over `buffer`: the cursor's byte offset, the line and column
/// counters, the byte under the cursor, and the tokens emitted so far.
pub struct Lex<'lex> {
    pub buffer: &'lex str,
    pub idx: usize,
    pub line: usize,
    pub column: usize,
    /// `None` once the cursor has reached the end of the buffer.
    pub ch: Option<u8>,
    pub tokens: Vec<Token>,
}

impl<'lex> Lex<'lex> {
    /// The bytes of the buffer.
    pub open spec fn source(&self) -> Seq<u8> {
        self.buffer.spec_bytes()
    }

    /// The cursor is inside the buffer or at its end, and the counters and
    /// the byte under the cursor are those of the cursor's offset: the line is
    /// one more than the newlines consumed, the column one more than the
    /// bytes consumed.
    pub open spec fn wf(&self) -> bool {
        &&& self.source().len() < usize::MAX
        &&& self.idx <= self.source().len()
        &&& self.line == line_at(self.source(), self.idx as int)
        &&& self.column == column_at(self.idx as int)
        &&& self.ch == byte_at(self.source(), self.idx as int)
    }

    /// A scanner at the start of `input`, with no token emitted yet. The
    /// buffer is shorter than `usize::MAX` bytes, as every `str` in memory
    /// is, so that the column after its last byte can be counted.
    pub fn new(input: &'lex str) -> (lex: Self)
        requires
            input.spec_bytes().len() < usize::MAX,
        ensures
            lex.wf(),
            lex.buffer == input,
            lex.idx == 0,
            lex.tokens@ == Seq::<Token>::empty(),
    {
        let bytes = input.as_bytes();
        let first = if bytes.len() > 0 {
            Some(bytes[0])
        } else {
            None
        };
        Self { buffer: input, idx: 0, line: 1, column: 1, ch: first, tokens: Vec::new() }
    }

    /// Scans the buffer from the cursor to its end and appends the tokens
    /// found to `tokens`, in source order. A byte that starts no token is
    /// emitted as an `Invalid` token, and the scan goes on after it. On a
    /// scanner fresh from `new`, `tokens` then holds the scan of the whole
    /// buffer.
    pub fn load(&mut self)
        requires
            old(self).wf(),
        ensures
            final(self).wf(),
            final(self).buffer == old(self).buffer,
            final(self).idx == old(self).source().len(),
            token_views(final(self).tokens@) == token_views(old(self).tokens@) + scan_from(
                old(self).source(),
                old(self).idx as int,
            ),
            old(self).idx == 0 && old(self).tokens@.len() == 0 ==> token_views(
                final(self).tokens@,
            ) == scan(old(self).source()),
    {
        let ghost source = self.source();
        let ghost expected = token_views(self.tokens@) + scan_from(source, self.idx as int);
        loop
            invariant
                self.wf(),
                self.buffer == old(self).buffer,
                source == self.source(),
                token_views(self.tokens@) + scan_from(source, self.idx as int) == expected,
            ensures
                self.wf(),
                self.buffer == old(self).buffer,
                self.idx == source.len(),
                token_views(self.tokens@) == expected,
            decreases source.len() - self.idx,
        {
            let ghost emitted = self.tokens@;
            let ghost start = self.idx as int;
            match self.scan_token() {
                Some(token) => {
                    self.tokens.push(token);
                    proof {
                        lemma_token_end_bounds(source, start);
                        assert(token_views(self.tokens@) =~= token_views(emitted).push(token@));
                        assert(token_views(self.tokens@) + scan_from(source, self.idx as int)
                            =~= token_views(emitted) + scan_from(source, start));
                    }
                },
                None => {
                    assert(token_views(self.tokens@) + scan_from(source, self.idx as int)
                        =~= token_views(self.tokens@));
                    break ;
                },
            }
        }
    }

    /// Emits the token that starts at the cursor and moves the cursor to its
    /// end. At the end of the buffer there is no token, and nothing changes.
    fn scan_token(&mut self) -> (token: Option<Token>)
        requires
            old(self).wf(),
        ensures
            final(self).wf(),
            final(self).buffer == old(self).buffer,
            final(self).tokens == old(self).tokens,
            match token {
                Some(token) => {
                    &&& old(self).idx < old(self).source().len()
                    &&& token@ == token_at(old(self).source(), old(self).idx as int)
                    &&& final(self).idx == token_end(old(self).source(), old(self).idx as int)
                },
                None => {
                    &&& old(self).idx == old(self).source().len()
                    &&& final(self).idx == old(self).idx
                },
            },
    {
        let start = self.idx;
        let line = self.line;
        let column = self.column;
        let first = match self.peek() {
            Some(b) => b,
            None => {
                return None;
            },
        };
        proof {
            encode_utf8_valid_utf8(self.buffer@);
        }
        let (label, kind) = match first {
            NEWLINE => ("Eol", TokenKind::EOL),
            SPACE | TAB => ("Space", TokenKind::Space),
            OPEN_BRACKET => ("OpenBrace", TokenKind::OpenBrace),
            CLOSE_BRACKET => ("CloseBrace", TokenKind::CloseBrace),
            OPEN_PAREN => ("OpenParenthesis", TokenKind::OpenParenthesis),
            CLOSE_PAREN => ("CloseParenthesis", TokenKind::CloseParenthesis),
            HASH => {
                proof {
                    lemma_run_end_is_maximal(
                        self.source(),
                        self.idx + 1,
                        ByteClass::CommentText,
                    );
                }
                let comment = self.concat_comment();
                return Some(
                    Token::new(
                        "Comment".to_owned(),
                        TokenKind::Comment(comment),
                        Pos::new(start, line, column, self.idx),
                    ),
                );
            },
            COLON => ("Colon", TokenKind::Colon),
            COMMA => ("Comma", TokenKind::Comma),
            AT_SIGN => ("Directive", TokenKind::Directive),
            DASH => {
                if self.check_n(1, GREATER) {
                    self.advance();
                    ("Arrow", TokenKind::Arrow)
                } else {
                    ("Dash", TokenKind::Dash)
                }
            },
            LOWER_A..=LOWER_Z | UPPER_A..=UPPER_Z => {
                proof {
                    lemma_char_starts_at_ascii(self.source(), self.idx as int);
                }
                return Some(self.consume_ident());
            },
            DIGIT_ZERO..=DIGIT_NINE => {
                proof {
                    lemma_char_starts_at_ascii(self.source(), self.idx as int);
                }
                return Some(self.consume_number());
            },
            _ => ("Invalid", TokenKind::Invalid),
        };
        self.advance();
        Some(Token::new(label.to_owned(), kind, Pos::new(start, line, column, self.idx)))
    }

    /// Consumes the digits at the cursor and emits them as a number.
    fn consume_number(&mut self) -> (token: Token)
        requires
            old(self).wf(),
            is_char_boundary(old(self).source(), old(self).idx as int),
        ensures
            final(self).wf(),
            final(self).buffer == old(self).buffer,
            final(self).tokens == old(self).tokens,
            final(self).idx == run_end(
                old(self).source(),
                old(self).idx as int,
                ByteClass::Digit,
            ),
            token@ == token_of(
                old(self).source(),
                TokenKindView::Number(
                    literal_text(old(self).source(), old(self).idx as int, final(self).idx as int),
                ),
                old(self).idx as int,
                final(self).idx as int,
            ),
    {
        let start = self.idx;
        let line = self.line;
        let column = self.column;
        let ghost source = self.source();
        proof {
            encode_utf8_valid_utf8(self.buffer@);
        }
        loop
            invariant
                self.wf(),
                self.buffer == old(self).buffer,
                self.tokens == old(self).tokens,
                source == self.source(),
                valid_utf8(source),
                start <= self.idx,
                is_char_boundary(source, self.idx as int),
                forall|k: int|
                    start <= k < self.idx ==> ByteClass::Digit.contains(#[trigger] source[k]),
            ensures
                is_maximal_run(source, start as int, self.idx as int, ByteClass::Digit),
            decreases source.len() - self.idx,
        {
            match self.ch {
                Some(DIGIT_ZERO..=DIGIT_NINE) => {
                    proof {
                        lemma_char_starts_after_ascii(source, self.idx as int);
                    }
                    self.advance();
                },
                _ => {
                    break ;
                },
            }
        }
        proof {
            lemma_maximal_run_is_run_end(source, start as int, self.idx as int, ByteClass::Digit);
        }
        let literal = self.slice_text(start, self.idx);
        Token::new(
            "NumberLiteral".to_owned(),
            TokenKind::Number(literal),
            Pos::new(start, line, column, self.idx),
        )
    }

    /// Consumes the letters and underscores at the cursor and emits them as
    /// an identifier.
    fn consume_ident(&mut self) -> (token: Token)
        requires
            old(self).wf(),
            is_char_boundary(old(self).source(), old(self).idx as int),
        ensures
            final(self).wf(),
            final(self).buffer == old(self).buffer,
            final(self).tokens == old(self).tokens,
            final(self).idx == run_end(
                old(self).source(),
                old(self).idx as int,
                ByteClass::Ident,
            ),
            token@ == token_of(
                old(self).source(),
                TokenKindView::IdentLiteral(
                    literal_text(old(self).source(), old(self).idx as int, final(self).idx as int),
                ),
                old(self).idx as int,
                final(self).idx as int,
            ),
    {
        let start = self.idx;
        let line = self.line;
        let column = self.column;
        let ghost source = self.source();
        proof {
            encode_utf8_valid_utf8(self.buffer@);
        }
        loop
            invariant
                self.wf(),
                self.buffer == old(self).buffer,
                self.tokens == old(self).tokens,
                source == self.source(),
                valid_utf8(source),
                start <= self.idx,
                is_char_boundary(source, self.idx as int),
                forall|k: int|
                    start <= k < self.idx ==> ByteClass::Ident.contains(#[trigger] source[k]),
            ensures
                is_maximal_run(source, start as int, self.idx as int, ByteClass::Ident),
            decreases source.len() - self.idx,
        {
            match self.ch {
                Some(LOWER_A..=LOWER_Z | UPPER_A..=UPPER_Z | UNDERSCORE) => {
                    proof {
                        lemma_char_starts_after_ascii(source, self.idx as int);
                    }
                    self.advance();
                },
                _ => {
                    break ;
                },
            }
        }
        proof {
            lemma_maximal_run_is_run_end(source, start as int, self.idx as int, ByteClass::Ident);
        }
        let literal = self.slice_text(start, self.idx);
        Token::new(
            "IdentLiteral".to_owned(),
            TokenKind::IdentLiteral(literal),
            Pos::new(start, line, column, self.idx),
        )
    }

    /// Consumes the comment whose `#` is under the cursor, stopping before
    /// the newline that ends it, and returns its text: what stands between
    /// the `#` and the newline, or the end of the buffer where no newline
    /// follows.
    fn concat_comment(&mut self) -> (comment: String)
        requires
            old(self).wf(),
            byte_at(old(self).source(), old(self).idx as int) == Some(HASH),
        ensures
            final(self).wf(),
            final(self).buffer == old(self).buffer,
            final(self).tokens == old(self).tokens,
            final(self).idx == run_end(
                old(self).source(),
                old(self).idx + 1,
                ByteClass::CommentText,
            ),
            comment@ == literal_text(
                old(self).source(),
                old(self).idx + 1,
                final(self).idx as int,
            ),
    {
        let ghost source = self.source();
        proof {
            encode_utf8_valid_utf8(self.buffer@);
            lemma_char_starts_after_ascii(source, self.idx as int);
        }
        self.advance();
        let start = self.idx;
        loop
            invariant
                self.wf(),
                self.buffer == old(self).buffer,
                self.tokens == old(self).tokens,
                source == self.source(),
                valid_utf8(source),
                start == old(self).idx + 1,
                is_char_boundary(source, start as int),
                start <= self.idx,
                forall|k: int|
                    start <= k < self.idx ==> ByteClass::CommentText.contains(#[trigger] source[k]),
            ensures
                is_maximal_run(source, start as int, self.idx as int, ByteClass::CommentText),
                is_char_boundary(source, self.idx as int),
            decreases source.len() - self.idx,
        {
            match self.ch {
                None => {
                    proof {
                        is_char_boundary_start_end_of_seq(source);
                    }
                    break ;
                },
                Some(NEWLINE) => {
                    proof {
                        lemma_char_starts_at_ascii(source, self.idx as int);
                    }
                    break ;
                },
                Some(_) => {
                    self.advance();
                },
            }
        }
        proof {
            lemma_maximal_run_is_run_end(
                source,
                start as int,
                self.idx as int,
                ByteClass::CommentText,
            );
        }
        self.slice_text(start, self.idx)
    }

    /// The text of the bytes `start..end`, copied out of the buffer.
    fn slice_text(&self, start: usize, end: usize) -> (text: String)
        requires
            start <= end <= self.source().len(),
            is_char_boundary(self.source(), start as int),
            is_char_boundary(self.source(), end as int),
        ensures
            text@ == literal_text(self.source(), start as int, end as int),
    {
        proof {
            encode_utf8_valid_utf8(self.buffer@);
            lemma_text_between_boundaries(self.source(), start as int, end as int);
        }
        let (head, _) = self.buffer.split_at(end);
        let (_, body) = head.split_at(start);
        proof {
            assert(body.spec_bytes() =~= self.source().subrange(start as int, end as int));
            encode_utf8_decode_utf8(body@);
        }
        body.to_owned()
    }

    /// The byte under the cursor.
    fn peek(&self) -> (b: Option<u8>)
        requires
            self.idx <= self.source().len(),
        ensures
            b == byte_at(self.source(), self.idx as int),
    {
        self.peek_n(0)
    }

    /// The byte `n` places after the cursor, `None` past the end of the buffer.
    fn peek_n(&self, n: usize) -> (b: Option<u8>)
        requires
            self.idx <= self.source().len(),
        ensures
            b == byte_at(self.source(), self.idx + n),
    {
        let bytes = self.buffer.as_bytes();
        if n < bytes.len() - self.idx {
            Some(bytes[self.idx + n])
        } else {
            None
        }
    }

    /// Whether the byte `n` places after the cursor is `c`.
    fn check_n(&self, n: usize, c: u8) -> (same: bool)
        requires
            self.idx <= self.source().len(),
        ensures
            same == (byte_at(self.source(), self.idx + n) == Some(c)),
    {
        match self.peek_n(n) {
            Some(b) => b == c,
            None => false,
        }
    }

    /// Consumes the byte under the cursor.
    fn advance(&mut self)
        requires
            old(self).wf(),
            old(self).idx < old(self).source().len(),
        ensures
            final(self).wf(),
            final(self).idx == old(self).idx + 1,
            final(self).buffer == old(self).buffer,
            final(self).tokens == old(self).tokens,
    {
        proof {
            lemma_line_at_bounds(self.source(), self.idx as int);
        }
        if self.ch == Some(NEWLINE) {
            self.line = self.line + 1;
        }
        self.idx = self.idx + 1;
        self.column = self.column + 1;
        self.ch = self.peek();
    }
}

} // verus!
