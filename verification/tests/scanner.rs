use asm_lexer::parse::lex::Lex;
use asm_lexer::parse::token::{Pos, Token, TokenKind};

/// A scanner at the start of `input`.
fn scanner(input: &str) -> Lex<'_> {
    assert!(input.as_bytes().len() < usize::MAX);
    Lex::new(input)
}

fn scan(input: &str) -> Vec<Token> {
    let mut lex = scanner(input);
    lex.load();
    lex.tokens
}

fn kinds(input: &str) -> Vec<TokenKind> {
    let mut out = Vec::new();
    for token in scan(input) {
        out.push(token.kind);
    }
    out
}

fn span(start: usize, line: usize, column: usize, end: usize) -> Pos {
    Pos { start, line, column, end, len: end - start }
}

fn ident(text: &str) -> TokenKind {
    TokenKind::IdentLiteral(String::from(text))
}

fn number(text: &str) -> TokenKind {
    TokenKind::Number(String::from(text))
}

fn comment(text: &str) -> TokenKind {
    TokenKind::Comment(String::from(text))
}

/// Writes a token back from its kind alone.
fn spell(kind: &TokenKind, out: &mut String) {
    match kind {
        TokenKind::EOL => out.push('\n'),
        TokenKind::Space => out.push(' '),
        TokenKind::OpenBrace => out.push('['),
        TokenKind::CloseBrace => out.push(']'),
        TokenKind::OpenParenthesis => out.push('('),
        TokenKind::CloseParenthesis => out.push(')'),
        TokenKind::Colon => out.push(':'),
        TokenKind::Comma => out.push(','),
        TokenKind::Directive => out.push('@'),
        TokenKind::Dash => out.push('-'),
        TokenKind::Arrow => out.push_str("->"),
        TokenKind::Comment(text) => {
            out.push('#');
            out.push_str(text);
        }
        TokenKind::IdentLiteral(text) => out.push_str(text),
        TokenKind::Number(text) => out.push_str(text),
        TokenKind::Invalid => {}
    }
}

fn spell_all(tokens: &[Token]) -> String {
    let mut out = String::new();
    for token in tokens {
        spell(&token.kind, &mut out);
    }
    out
}

#[test]
fn new_scanner_stands_at_the_first_byte() {
    let lex = scanner("ab");
    assert_eq!(lex.buffer, "ab");
    assert_eq!(lex.idx, 0);
    assert_eq!(lex.line, 1);
    assert_eq!(lex.column, 1);
    assert_eq!(lex.ch, Some(0x61));
    assert!(lex.tokens.is_empty());
}

#[test]
fn new_scanner_over_nothing_has_no_lookahead() {
    let lex = scanner("");
    assert_eq!(lex.idx, 0);
    assert_eq!(lex.line, 1);
    assert_eq!(lex.column, 1);
    assert_eq!(lex.ch, None);
    assert!(lex.tokens.is_empty());
}

#[test]
fn empty_buffer_has_no_tokens() {
    let mut lex = scanner("");
    lex.load();
    assert!(lex.tokens.is_empty());
    assert_eq!(lex.idx, 0);
    assert_eq!(lex.line, 1);
    assert_eq!(lex.column, 1);
    assert_eq!(lex.ch, None);
}

#[test]
fn each_mark_is_one_token_of_one_byte() {
    let tokens = scan("[]():,@");
    let expected = [
        (TokenKind::OpenBrace, "OpenBrace"),
        (TokenKind::CloseBrace, "CloseBrace"),
        (TokenKind::OpenParenthesis, "OpenParenthesis"),
        (TokenKind::CloseParenthesis, "CloseParenthesis"),
        (TokenKind::Colon, "Colon"),
        (TokenKind::Comma, "Comma"),
        (TokenKind::Directive, "Directive"),
    ];
    assert_eq!(tokens.len(), expected.len());
    for (i, (kind, label)) in expected.iter().enumerate() {
        assert_eq!(&tokens[i].kind, kind);
        assert_eq!(tokens[i].lexme, *label);
        assert_eq!(tokens[i].pos, span(i, 1, i + 1, i + 1));
        assert_eq!(tokens[i].pos.len, 1);
    }
}

#[test]
fn marks_in_any_order_stay_one_to_one() {
    let input = "@@,]:[)(";
    let tokens = scan(input);
    assert_eq!(tokens.len(), input.len());
    assert_eq!(
        kinds(input),
        vec![
            TokenKind::Directive,
            TokenKind::Directive,
            TokenKind::Comma,
            TokenKind::CloseBrace,
            TokenKind::Colon,
            TokenKind::OpenBrace,
            TokenKind::CloseParenthesis,
            TokenKind::OpenParenthesis,
        ]
    );
    for (i, token) in tokens.iter().enumerate() {
        assert_eq!(token.pos, span(i, 1, i + 1, i + 1));
    }
}

#[test]
fn arrow_is_one_token_of_two_bytes() {
    let tokens = scan("->");
    assert_eq!(tokens.len(), 1);
    assert_eq!(tokens[0].kind, TokenKind::Arrow);
    assert_eq!(tokens[0].lexme, "Arrow");
    assert_eq!(tokens[0].pos, Pos { start: 0, line: 1, column: 1, end: 2, len: 2 });
}

#[test]
fn dash_before_a_letter_is_a_dash() {
    let tokens = scan("-x");
    assert_eq!(tokens.len(), 2);
    assert_eq!(tokens[0].kind, TokenKind::Dash);
    assert_eq!(tokens[0].lexme, "Dash");
    assert_eq!(tokens[0].pos, Pos { start: 0, line: 1, column: 1, end: 1, len: 1 });
    assert_eq!(tokens[1].kind, ident("x"));
    assert_eq!(tokens[1].lexme, "IdentLiteral");
    assert_eq!(tokens[1].pos, Pos { start: 1, line: 1, column: 2, end: 2, len: 1 });
}

#[test]
fn dash_at_the_end_of_the_buffer_is_a_dash() {
    let tokens = scan("-");
    assert_eq!(tokens.len(), 1);
    assert_eq!(tokens[0].kind, TokenKind::Dash);
    assert_eq!(tokens[0].pos, span(0, 1, 1, 1));
}

#[test]
fn dashes_and_arrows_side_by_side() {
    assert_eq!(
        kinds("-->->-"),
        vec![TokenKind::Dash, TokenKind::Arrow, TokenKind::Arrow, TokenKind::Dash]
    );
    let tokens = scan("-->->-");
    assert_eq!(tokens[1].pos, span(1, 1, 2, 3));
    assert_eq!(tokens[2].pos, span(3, 1, 4, 5));
    assert_eq!(tokens[3].pos, span(5, 1, 6, 6));
}

#[test]
fn greater_than_alone_is_invalid() {
    assert_eq!(kinds(">"), vec![TokenKind::Invalid]);
}

#[test]
fn comment_runs_to_the_newline_and_leaves_it() {
    let tokens = scan("# hello\n");
    assert_eq!(tokens.len(), 2);
    assert_eq!(tokens[0].kind, comment(" hello"));
    assert_eq!(tokens[0].lexme, "Comment");
    assert_eq!(tokens[0].pos, Pos { start: 0, line: 1, column: 1, end: 7, len: 7 });
    assert_eq!(tokens[1].kind, TokenKind::EOL);
    assert_eq!(tokens[1].lexme, "Eol");
    assert_eq!(tokens[1].pos, Pos { start: 7, line: 1, column: 8, end: 8, len: 1 });
}

#[test]
fn comment_without_a_newline_runs_to_the_end() {
    let tokens = scan("x #a-> b");
    assert_eq!(tokens.len(), 3);
    assert_eq!(tokens[2].kind, comment("a-> b"));
    assert_eq!(tokens[2].pos, span(2, 1, 3, 8));
}

#[test]
fn empty_comment() {
    let tokens = scan("#");
    assert_eq!(tokens.len(), 1);
    assert_eq!(tokens[0].kind, comment(""));
    assert_eq!(tokens[0].pos, span(0, 1, 1, 1));
    assert_eq!(kinds("#\n"), vec![comment(""), TokenKind::EOL]);
}

#[test]
fn comment_keeps_bytes_that_start_no_token() {
    assert_eq!(kinds("#%\t#\n"), vec![comment("%\t#"), TokenKind::EOL]);
}

#[test]
fn comment_may_hold_text_beyond_ascii() {
    let tokens = scan("# h\u{e9}llo \u{4e16}\n@");
    assert_eq!(tokens.len(), 3);
    assert_eq!(tokens[0].kind, comment(" h\u{e9}llo \u{4e16}"));
    assert_eq!(tokens[0].pos, span(0, 1, 1, 12));
    assert_eq!(tokens[1].kind, TokenKind::EOL);
    assert_eq!(tokens[1].pos, span(12, 1, 13, 13));
    assert_eq!(tokens[2].kind, TokenKind::Directive);
    assert_eq!(tokens[2].pos, span(13, 2, 14, 14));
}

#[test]
fn digits_do_not_continue_an_identifier() {
    let tokens = scan("abc_123");
    assert_eq!(tokens.len(), 2);
    assert_eq!(tokens[0].kind, ident("abc_"));
    assert_eq!(tokens[0].lexme, "IdentLiteral");
    assert_eq!(tokens[0].pos, Pos { start: 0, line: 1, column: 1, end: 4, len: 4 });
    assert_eq!(tokens[1].kind, number("123"));
    assert_eq!(tokens[1].lexme, "NumberLiteral");
    assert_eq!(tokens[1].pos, Pos { start: 4, line: 1, column: 5, end: 7, len: 3 });
}

#[test]
fn letters_do_not_continue_a_number() {
    assert_eq!(kinds("12ab"), vec![number("12"), ident("ab")]);
}

#[test]
fn identifier_takes_both_cases_and_underscores() {
    assert_eq!(kinds("aZ__Az"), vec![ident("aZ__Az")]);
    assert_eq!(kinds("z"), vec![ident("z")]);
    assert_eq!(kinds("A"), vec![ident("A")]);
}

#[test]
fn underscore_does_not_start_an_identifier() {
    let tokens = scan("_a_");
    assert_eq!(tokens.len(), 2);
    assert_eq!(tokens[0].kind, TokenKind::Invalid);
    assert_eq!(tokens[0].pos, span(0, 1, 1, 1));
    assert_eq!(tokens[1].kind, ident("a_"));
    assert_eq!(tokens[1].pos, span(1, 1, 2, 3));
}

#[test]
fn number_keeps_its_digits_as_text() {
    let tokens = scan("0099999999999999999999999999");
    assert_eq!(tokens.len(), 1);
    assert_eq!(tokens[0].kind, number("0099999999999999999999999999"));
    assert_eq!(tokens[0].pos, span(0, 1, 1, 28));
}

#[test]
fn bytes_next_to_the_letters_and_digits_are_invalid() {
    // The neighbours of 'A', 'Z', 'a', 'z', '0' and '9' in the ASCII table.
    assert_eq!(kinds("`"), vec![TokenKind::Invalid]);
    assert_eq!(kinds("{"), vec![TokenKind::Invalid]);
    assert_eq!(kinds("/"), vec![TokenKind::Invalid]);
    assert_eq!(kinds(";"), vec![TokenKind::Invalid]);
    assert_eq!(kinds("\\"), vec![TokenKind::Invalid]);
    assert_eq!(kinds("^"), vec![TokenKind::Invalid]);
}

#[test]
fn space_and_tab_are_white_space_one_byte_each() {
    let tokens = scan(" \t ");
    assert_eq!(tokens.len(), 3);
    for (i, token) in tokens.iter().enumerate() {
        assert_eq!(token.kind, TokenKind::Space);
        assert_eq!(token.lexme, "Space");
        assert_eq!(token.pos, span(i, 1, i + 1, i + 1));
    }
}

#[test]
fn carriage_return_is_invalid() {
    assert_eq!(kinds("\r\n"), vec![TokenKind::Invalid, TokenKind::EOL]);
}

#[test]
fn foreign_byte_is_an_invalid_token() {
    let tokens = scan("%");
    assert_eq!(tokens.len(), 1);
    assert_eq!(tokens[0].kind, TokenKind::Invalid);
    assert_eq!(tokens[0].lexme, "Invalid");
    assert_eq!(tokens[0].pos, Pos { start: 0, line: 1, column: 1, end: 1, len: 1 });
}

#[test]
fn scan_goes_on_after_a_foreign_byte() {
    let tokens = scan("a%b\n%%7");
    assert_eq!(
        kinds("a%b\n%%7"),
        vec![
            ident("a"),
            TokenKind::Invalid,
            ident("b"),
            TokenKind::EOL,
            TokenKind::Invalid,
            TokenKind::Invalid,
            number("7"),
        ]
    );
    assert_eq!(tokens[1].pos, span(1, 1, 2, 2));
    assert_eq!(tokens[4].pos, span(4, 2, 5, 5));
    assert_eq!(tokens[5].pos, span(5, 2, 6, 6));
    assert_eq!(tokens[6].pos, span(6, 2, 7, 7));
}

#[test]
fn text_beyond_ascii_is_invalid_byte_by_byte() {
    let tokens = scan("a\u{e9}b");
    assert_eq!(
        kinds("a\u{e9}b"),
        vec![ident("a"), TokenKind::Invalid, TokenKind::Invalid, ident("b")]
    );
    assert_eq!(tokens[1].pos, span(1, 1, 2, 2));
    assert_eq!(tokens[2].pos, span(2, 1, 3, 3));
    assert_eq!(tokens[3].pos, span(3, 1, 4, 4));
}

#[test]
fn nul_byte_is_invalid_and_does_not_end_the_scan() {
    assert_eq!(kinds("a\0b"), vec![ident("a"), TokenKind::Invalid, ident("b")]);
}

#[test]
fn lines_count_newlines_and_columns_count_bytes() {
    let tokens = scan("a\n\nbc\n d");
    assert_eq!(tokens.len(), 7);
    assert_eq!(tokens[0].pos, span(0, 1, 1, 1));
    assert_eq!(tokens[1].pos, span(1, 1, 2, 2));
    assert_eq!(tokens[2].pos, span(2, 2, 3, 3));
    assert_eq!(tokens[3].pos, span(3, 3, 4, 5));
    assert_eq!(tokens[4].pos, span(5, 3, 6, 6));
    assert_eq!(tokens[5].pos, span(6, 4, 7, 7));
    assert_eq!(tokens[6].pos, span(7, 4, 8, 8));
    assert_eq!(tokens[6].kind, ident("d"));
}

#[test]
fn cursor_ends_one_past_the_last_byte() {
    let mut lex = scanner("ab 12\n");
    lex.load();
    assert_eq!(lex.idx, 6);
    assert_eq!(lex.column, 7);
    assert_eq!(lex.line, 2);
    assert_eq!(lex.ch, None);
    assert_eq!(lex.buffer, "ab 12\n");
}

#[test]
fn spans_lie_end_to_end_over_the_buffer() {
    let input = "@entry main:\n\tadd [x0, x1] -> (x2) # sum\n\u{e9} 42 % done";
    let tokens = scan(input);
    let mut at = 0;
    for token in &tokens {
        assert_eq!(token.pos.start, at);
        assert!(token.pos.start < token.pos.end);
        assert_eq!(token.pos.len, token.pos.end - token.pos.start);
        assert_eq!(token.pos.column, token.pos.start + 1);
        let newlines = input.as_bytes()[..at].iter().filter(|b| **b == b'\n').count();
        assert_eq!(token.pos.line, 1 + newlines);
        at = token.pos.end;
    }
    assert_eq!(at, input.len());
}

#[test]
fn literal_text_is_the_slice_of_its_span() {
    let input = "mov x_a, 17 # copy \u{2192} done\nret";
    for token in scan(input) {
        let slice = &input[token.pos.start..token.pos.end];
        match &token.kind {
            TokenKind::IdentLiteral(text) | TokenKind::Number(text) => assert_eq!(text, slice),
            TokenKind::Comment(text) => {
                assert_eq!(&slice[..1], "#");
                assert_eq!(text, &slice[1..]);
            }
            _ => {}
        }
    }
}

#[test]
fn spelling_the_tokens_gives_the_buffer_back() {
    let input = "@entry main:\n  add [x_lo, x_hi] -> (sum) # a + b\t%\n  sub 12,3 - -> x\n#";
    let tokens = scan(input);
    assert_eq!(spell_all(&tokens), input);
}

#[test]
fn spelling_does_not_give_back_a_tab_or_a_foreign_byte() {
    assert_eq!(spell_all(&scan("a\tb")), "a b");
    assert_eq!(spell_all(&scan("a%b")), "ab");
}

#[test]
fn whole_line_of_the_language() {
    let tokens = scan("@dir [a]:(b),1->c-d #e\n");
    let expected = vec![
        (TokenKind::Directive, "Directive", 0, 1),
        (ident("dir"), "IdentLiteral", 1, 4),
        (TokenKind::Space, "Space", 4, 5),
        (TokenKind::OpenBrace, "OpenBrace", 5, 6),
        (ident("a"), "IdentLiteral", 6, 7),
        (TokenKind::CloseBrace, "CloseBrace", 7, 8),
        (TokenKind::Colon, "Colon", 8, 9),
        (TokenKind::OpenParenthesis, "OpenParenthesis", 9, 10),
        (ident("b"), "IdentLiteral", 10, 11),
        (TokenKind::CloseParenthesis, "CloseParenthesis", 11, 12),
        (TokenKind::Comma, "Comma", 12, 13),
        (number("1"), "NumberLiteral", 13, 14),
        (TokenKind::Arrow, "Arrow", 14, 16),
        (ident("c"), "IdentLiteral", 16, 17),
        (TokenKind::Dash, "Dash", 17, 18),
        (ident("d"), "IdentLiteral", 18, 19),
        (TokenKind::Space, "Space", 19, 20),
        (comment("e"), "Comment", 20, 22),
        (TokenKind::EOL, "Eol", 22, 23),
    ];
    assert_eq!(tokens.len(), expected.len());
    for (token, (kind, label, start, end)) in tokens.iter().zip(expected) {
        assert_eq!(token.kind, kind);
        assert_eq!(token.lexme, label);
        assert_eq!(token.pos, span(start, 1, start + 1, end));
    }
}

#[test]
fn load_at_the_end_adds_nothing() {
    let mut lex = scanner("a b");
    lex.load();
    assert_eq!(lex.tokens.len(), 3);
    lex.load();
    assert_eq!(lex.tokens.len(), 3);
    assert_eq!(lex.idx, 3);
}

#[test]
fn load_appends_to_the_tokens_already_there() {
    let mut lex = scanner("->");
    lex.tokens.push(Token::new(String::from("Eol"), TokenKind::EOL, Pos::new(0, 1, 1, 1)));
    lex.load();
    assert_eq!(lex.tokens.len(), 2);
    assert_eq!(lex.tokens[0].kind, TokenKind::EOL);
    assert_eq!(lex.tokens[1].kind, TokenKind::Arrow);
}

#[test]
fn tokens_outlive_the_buffer() {
    let tokens = {
        let source = String::from("add x");
        scan(&source)
    };
    assert_eq!(tokens[0].kind, ident("add"));
    assert_eq!(tokens[2].kind, ident("x"));
}
