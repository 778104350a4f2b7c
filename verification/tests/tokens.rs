use monkey::lexer::token::{lookup_identifier, Span, Token, TokenKind};
use monkey::lexer::Lexer;
use monkey::text::{signed_to_string, unsigned_to_string};

fn kinds(input: &str) -> Vec<TokenKind> {
    let mut lexer = Lexer::new(input);
    let mut found = Vec::new();
    loop {
        let token = lexer.next_token();
        let done = token.kind == TokenKind::Eof;
        found.push(token.kind);
        if done {
            return found;
        }
    }
}

fn tokens(input: &str) -> Vec<Token> {
    let mut lexer = Lexer::new(input);
    let mut found = Vec::new();
    loop {
        let token = lexer.next_token();
        if token.kind == TokenKind::Eof {
            return found;
        }
        found.push(token);
    }
}

#[test]
fn symbols_then_eof_forever() {
    let mut lexer = Lexer::new("=+(){},;");
    let expected = vec![
        TokenKind::Assign,
        TokenKind::Plus,
        TokenKind::LeftParen,
        TokenKind::RightParen,
        TokenKind::LeftBrace,
        TokenKind::RightBrace,
        TokenKind::Comma,
        TokenKind::SemiColon,
        TokenKind::Eof,
    ];
    for kind in expected {
        assert_eq!(lexer.next_token().kind, kind);
    }
    for _ in 0..5 {
        let token = lexer.next_token();
        assert_eq!(token.kind, TokenKind::Eof);
        assert_eq!(token.span, Span { start: 8, end: 8 });
    }
}

#[test]
fn two_character_operators_are_one_token() {
    assert_eq!(kinds("=="), vec![TokenKind::Eq, TokenKind::Eof]);
    assert_eq!(kinds("!="), vec![TokenKind::NotEq, TokenKind::Eof]);
    assert_eq!(kinds("="), vec![TokenKind::Assign, TokenKind::Eof]);
    assert_eq!(kinds("!"), vec![TokenKind::Bang, TokenKind::Eof]);
    assert_eq!(
        kinds("= ="),
        vec![TokenKind::Assign, TokenKind::Assign, TokenKind::Eof]
    );
    assert_eq!(
        kinds("==="),
        vec![TokenKind::Eq, TokenKind::Assign, TokenKind::Eof]
    );
    assert_eq!(
        kinds("!!="),
        vec![TokenKind::Bang, TokenKind::NotEq, TokenKind::Eof]
    );
}

#[test]
fn two_character_operators_span_both_bytes() {
    let found = tokens(" == !=");
    assert_eq!(found.len(), 2);
    assert_eq!(found[0].span, Span { start: 1, end: 2 });
    assert_eq!(found[1].span, Span { start: 4, end: 5 });
}

#[test]
fn single_character_tokens_span_one_byte() {
    let found = tokens("(+)");
    assert_eq!(found[0].span, Span { start: 0, end: 0 });
    assert_eq!(found[1].span, Span { start: 1, end: 1 });
    assert_eq!(found[2].span, Span { start: 2, end: 2 });
}

#[test]
fn spans_hold_the_source_text() {
    let input = "let five = 5;\n if (five != 10) { return !true; } else { x_y == z }";
    let expected = vec![
        "let", "five", "=", "5", ";", "if", "(", "five", "!=", "10", ")", "{", "return", "!",
        "true", ";", "}", "else", "{", "x_y", "==", "z", "}",
    ];
    let found = tokens(input);
    assert_eq!(found.len(), expected.len());
    for (token, text) in found.iter().zip(expected.iter()) {
        assert_eq!(&input[token.span.start..=token.span.end], *text);
    }
}

#[test]
fn spans_never_go_back() {
    let input = "a + bb * (ccc - 1) == 22;";
    let found = tokens(input);
    for pair in found.windows(2) {
        assert!(pair[0].span.start <= pair[0].span.end);
        assert!(pair[0].span.end < pair[1].span.start);
    }
}

#[test]
fn eof_stands_at_the_end_of_the_source() {
    let mut lexer = Lexer::new("ab  ");
    assert_eq!(
        lexer.next_token().kind,
        TokenKind::Ident {
            name: "ab".to_string()
        }
    );
    let eof = lexer.next_token();
    assert_eq!(eof.kind, TokenKind::Eof);
    assert_eq!(eof.span, Span { start: 4, end: 4 });
}

#[test]
fn empty_source_is_eof_at_once() {
    let mut lexer = Lexer::new("");
    let eof = lexer.next_token();
    assert_eq!(eof.kind, TokenKind::Eof);
    assert_eq!(eof.span, Span { start: 0, end: 0 });
    assert_eq!(lexer.next_token().kind, TokenKind::Eof);
}

#[test]
fn whitespace_of_every_sort_is_skipped() {
    assert_eq!(
        kinds(" \t\n\x0C\r+"),
        vec![TokenKind::Plus, TokenKind::Eof]
    );
    // a vertical tab is no ASCII whitespace
    assert_eq!(kinds("\x0B"), vec![TokenKind::Illegal, TokenKind::Eof]);
}

#[test]
fn trailing_single_character_word_and_digit() {
    assert_eq!(
        kinds("a"),
        vec![
            TokenKind::Ident {
                name: "a".to_string()
            },
            TokenKind::Eof
        ]
    );
    assert_eq!(kinds("7"), vec![TokenKind::Int(7), TokenKind::Eof]);
}

#[test]
fn words_hold_letters_and_underscores_only() {
    assert_eq!(
        kinds("foo1"),
        vec![
            TokenKind::Ident {
                name: "foo".to_string()
            },
            TokenKind::Int(1),
            TokenKind::Eof
        ]
    );
    assert_eq!(
        kinds("_a_B"),
        vec![
            TokenKind::Ident {
                name: "_a_B".to_string()
            },
            TokenKind::Eof
        ]
    );
    assert_eq!(
        kinds("1a"),
        vec![
            TokenKind::Int(1),
            TokenKind::Ident {
                name: "a".to_string()
            },
            TokenKind::Eof
        ]
    );
}

#[test]
fn integer_literals() {
    assert_eq!(kinds("0"), vec![TokenKind::Int(0), TokenKind::Eof]);
    assert_eq!(kinds("007"), vec![TokenKind::Int(7), TokenKind::Eof]);
    assert_eq!(kinds("838383"), vec![TokenKind::Int(838383), TokenKind::Eof]);
    assert_eq!(
        kinds("9223372036854775807"),
        vec![TokenKind::Int(i64::MAX), TokenKind::Eof]
    );
}

#[test]
fn integer_literal_out_of_range_is_zero() {
    assert_eq!(
        kinds("9223372036854775808"),
        vec![TokenKind::Int(0), TokenKind::Eof]
    );
    assert_eq!(
        kinds("99999999999999999999999999"),
        vec![TokenKind::Int(0), TokenKind::Eof]
    );
    let found = tokens("99999999999999999999999999 1");
    assert_eq!(found[0].span, Span { start: 0, end: 25 });
    assert_eq!(found[1].kind, TokenKind::Int(1));
}

#[test]
fn unknown_bytes_are_illegal_and_scanning_goes_on() {
    assert_eq!(
        kinds("@1"),
        vec![TokenKind::Illegal, TokenKind::Int(1), TokenKind::Eof]
    );
    let found = tokens("a # b");
    assert_eq!(found[1].kind, TokenKind::Illegal);
    assert_eq!(found[1].span, Span { start: 2, end: 2 });
    assert_eq!(
        found[2].kind,
        TokenKind::Ident {
            name: "b".to_string()
        }
    );
}

#[test]
fn a_nul_byte_inside_the_source_is_illegal() {
    assert_eq!(
        kinds("\0a"),
        vec![
            TokenKind::Illegal,
            TokenKind::Ident {
                name: "a".to_string()
            },
            TokenKind::Eof
        ]
    );
}

#[test]
fn bytes_beyond_ascii_are_illegal_one_by_one() {
    assert_eq!(
        kinds("\u{e9}"),
        vec![TokenKind::Illegal, TokenKind::Illegal, TokenKind::Eof]
    );
}

#[test]
fn keywords_by_exact_match() {
    assert_eq!(lookup_identifier("let"), TokenKind::Let);
    assert_eq!(lookup_identifier("fn"), TokenKind::Fn);
    assert_eq!(lookup_identifier("if"), TokenKind::If);
    assert_eq!(lookup_identifier("else"), TokenKind::Else);
    assert_eq!(lookup_identifier("true"), TokenKind::True);
    assert_eq!(lookup_identifier("false"), TokenKind::False);
    assert_eq!(lookup_identifier("return"), TokenKind::Return);
    assert_eq!(
        lookup_identifier("Let"),
        TokenKind::Ident {
            name: "Let".to_string()
        }
    );
    assert_eq!(
        lookup_identifier("lets"),
        TokenKind::Ident {
            name: "lets".to_string()
        }
    );
    assert_eq!(
        lookup_identifier(""),
        TokenKind::Ident {
            name: "".to_string()
        }
    );
}

#[test]
fn token_kind_text() {
    let cases = vec![
        (TokenKind::Eof, "EOF"),
        (TokenKind::Illegal, "ILLEGAL"),
        (
            TokenKind::Ident {
                name: "foobar".to_string(),
            },
            "foobar",
        ),
        (TokenKind::Int(42), "42"),
        (TokenKind::Int(-42), "-42"),
        (TokenKind::String("hello".to_string()), "hello"),
        (TokenKind::Assign, "="),
        (TokenKind::Plus, "+"),
        (TokenKind::Bang, "!"),
        (TokenKind::Minus, "-"),
        (TokenKind::Slash, "/"),
        (TokenKind::Star, "*"),
        (TokenKind::LT, "<"),
        (TokenKind::GT, ">"),
        (TokenKind::Eq, "=="),
        (TokenKind::NotEq, "!="),
        (TokenKind::LeftParen, "("),
        (TokenKind::RightParen, ")"),
        (TokenKind::LeftBrace, "{"),
        (TokenKind::RightBrace, "}"),
        (TokenKind::Comma, ","),
        (TokenKind::SemiColon, ";"),
        (TokenKind::Let, "let"),
        (TokenKind::Fn, "fn"),
        (TokenKind::True, "true"),
        (TokenKind::False, "false"),
        (TokenKind::If, "if"),
        (TokenKind::Else, "else"),
        (TokenKind::Return, "return"),
    ];
    for (kind, text) in cases {
        assert_eq!(kind.to_string(), text);
    }
}

#[test]
fn token_text() {
    let token = Token::new(TokenKind::Let, 0, 2);
    assert_eq!(token.to_string(), "start: 0 end: 2, kind: let");
    let token = Token::new(TokenKind::Int(-7), 10, 123);
    assert_eq!(token.to_string(), "start: 10 end: 123, kind: -7");
}

#[test]
fn token_new_keeps_its_arguments() {
    let token = Token::new(
        TokenKind::Ident {
            name: "x".to_string(),
        },
        3,
        9,
    );
    assert_eq!(
        token.kind,
        TokenKind::Ident {
            name: "x".to_string()
        }
    );
    assert_eq!(token.span, Span { start: 3, end: 9 });
}

#[test]
fn tokens_compare_and_copy_by_value() {
    let token = Token::new(
        TokenKind::Ident {
            name: "x".to_string(),
        },
        3,
        3,
    );
    let copy = token.clone();
    assert_eq!(token, copy);
    assert_ne!(token, Token::new(TokenKind::Ident { name: "y".to_string() }, 3, 3));
    assert_ne!(token, Token::new(TokenKind::Ident { name: "x".to_string() }, 3, 4));
    assert_ne!(TokenKind::Int(1), TokenKind::Int(2));
    assert_ne!(TokenKind::String("x".to_string()), TokenKind::Ident { name: "x".to_string() });
    assert_eq!(TokenKind::String("x".to_string()).clone(), TokenKind::String("x".to_string()));
}

#[test]
fn decimal_numerals() {
    assert_eq!(unsigned_to_string(0), "0");
    assert_eq!(unsigned_to_string(9), "9");
    assert_eq!(unsigned_to_string(10), "10");
    assert_eq!(unsigned_to_string(1234567890), "1234567890");
    assert_eq!(unsigned_to_string(usize::MAX), format!("{}", usize::MAX));
    assert_eq!(signed_to_string(0), "0");
    assert_eq!(signed_to_string(5), "5");
    assert_eq!(signed_to_string(-5), "-5");
    assert_eq!(signed_to_string(-100), "-100");
    assert_eq!(signed_to_string(i64::MAX), "9223372036854775807");
    assert_eq!(signed_to_string(i64::MIN), "-9223372036854775808");
}
