use monkey::lexer::token::TokenKind;
use monkey::lexer::Lexer;

#[test]
fn basic_symbols() {
    let input = "=+(){},;";

    let mut lex = Lexer::new(input);

    let expected = vec![
        TokenKind::Assign,
        TokenKind::Plus,
        TokenKind::LeftParen,
        TokenKind::RightParen,
        TokenKind::LeftBrace,
        TokenKind::RightBrace,
        TokenKind::Comma,
        TokenKind::SemiColon,
    ];

    for expect in expected {
        let t = lex.next_token();
        assert_eq!(t.kind, expect);
    }

    assert_eq!(lex.next_token().kind, TokenKind::Eof);
}

#[test]
fn simple_monkey() {
    let input = r"
            let five = 5;
            let ten = 10;

            let add = fn(x,y) {
                x + y;
            };

            let result = add(five, ten);
            !-/*5;
            5 < 10 > 5;
            if (5 < 10) {
              return true;
            } else {
              return false;
            }

            10 == 10;
            10 != 9;
        ";

    let mut lex = Lexer::new(input);

    let expected = vec![
        TokenKind::Let,
        TokenKind::Ident {
            name: "five".to_string(),
        },
        TokenKind::Assign,
        TokenKind::Int(5),
        TokenKind::SemiColon,
        TokenKind::Let,
        TokenKind::Ident {
            name: "ten".to_string(),
        },
        TokenKind::Assign,
        TokenKind::Int(10),
        TokenKind::SemiColon,
        TokenKind::Let,
        TokenKind::Ident {
            name: "add".to_string(),
        },
        TokenKind::Assign,
        TokenKind::Fn,
        TokenKind::LeftParen,
        TokenKind::Ident {
            name: "x".to_string(),
        },
        TokenKind::Comma,
        TokenKind::Ident {
            name: "y".to_string(),
        },
        TokenKind::RightParen,
        TokenKind::LeftBrace,
        TokenKind::Ident {
            name: "x".to_string(),
        },
        TokenKind::Plus,
        TokenKind::Ident {
            name: "y".to_string(),
        },
        TokenKind::SemiColon,
        TokenKind::RightBrace,
        TokenKind::SemiColon,
        TokenKind::Let,
        TokenKind::Ident {
            name: "result".to_string(),
        },
        TokenKind::Assign,
        TokenKind::Ident {
            name: "add".to_string(),
        },
        TokenKind::LeftParen,
        TokenKind::Ident {
            name: "five".to_string(),
        },
        TokenKind::Comma,
        TokenKind::Ident {
            name: "ten".to_string(),
        },
        TokenKind::RightParen,
        TokenKind::SemiColon,
        TokenKind::Bang,
        TokenKind::Minus,
        TokenKind::Slash,
        TokenKind::Star,
        TokenKind::Int(5),
        TokenKind::SemiColon,
        TokenKind::Int(5),
        TokenKind::LT,
        TokenKind::Int(10),
        TokenKind::GT,
        TokenKind::Int(5),
        TokenKind::SemiColon,
        TokenKind::If,
        TokenKind::LeftParen,
        TokenKind::Int(5),
        TokenKind::LT,
        TokenKind::Int(10),
        TokenKind::RightParen,
        TokenKind::LeftBrace,
        TokenKind::Return,
        TokenKind::True,
        TokenKind::SemiColon,
        TokenKind::RightBrace,
        TokenKind::Else,
        TokenKind::LeftBrace,
        TokenKind::Return,
        TokenKind::False,
        TokenKind::SemiColon,
        TokenKind::RightBrace,
        TokenKind::Int(10),
        TokenKind::Eq,
        TokenKind::Int(10),
        TokenKind::SemiColon,
        TokenKind::Int(10),
        TokenKind::NotEq,
        TokenKind::Int(9),
        TokenKind::SemiColon,
    ];

    for expect in expected {
        let t = lex.next_token();
        assert_eq!(t.kind, expect)
    }

    assert_eq!(lex.next_token().kind, TokenKind::Eof)
}
