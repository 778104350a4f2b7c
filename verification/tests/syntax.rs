use monkey::lexer::token::{Span, Token, TokenKind};
use monkey::parser::ast::{
    BlockStatement, Boolean, Expression, Ident, IfExp, InfixExp, Integer, Let, Literal, Node,
    PrefixExp, Program, Return, Statement,
};
use monkey::parser::precedence::{get_token_precedence, Precedence};
use monkey::parser::Parser;
use monkey::{parse, Lexer};

fn render(input: &str) -> String {
    match parse(input) {
        Ok(program) => program.to_string(),
        Err(errors) => panic!("{:?}", errors),
    }
}

fn diagnostics(input: &str) -> Vec<String> {
    match parse(input) {
        Ok(program) => panic!("parsed to {}", program.to_string()),
        Err(errors) => errors,
    }
}

fn ident(name: &str, at: usize) -> Expression {
    Expression::Identifier(Ident {
        name: name.to_string(),
        span: Span {
            start: at,
            end: at + name.len() - 1,
        },
    })
}

#[test]
fn round_trip_rendering() {
    let cases = [
        ("!5;", "(!5)"),
        ("-15", "(-15)"),
        ("-a * b", "((-a) * b)"),
        ("a + b * c + d / e - f", "(((a + (b * c)) + (d / e)) - f)"),
        ("3 + 4; -5 * 5", "(3 + 4)((-5) * 5)"),
        ("5 > 4 == 3 < 4", "((5 > 4) == (3 < 4))"),
        ("if (x < y) { x } else { y }", "if (x < y) { x } else { y }"),
    ];
    for (input, expected) in cases {
        assert_eq!(render(input), expected);
    }
}

#[test]
fn let_statements_by_name() {
    let program = parse("let x = 5;\nlet y = 10;\nlet foobar = 838383;").unwrap();
    assert_eq!(program.statements.len(), 3);
    let names = ["x", "y", "foobar"];
    for (statement, name) in program.statements.iter().zip(names.iter()) {
        match statement {
            Statement::Let(binding) => {
                assert_eq!(
                    binding.identifier.kind,
                    TokenKind::Ident {
                        name: name.to_string()
                    }
                );
                assert_eq!(binding.exp, None);
            }
            _ => panic!("not a let statement"),
        }
    }
}

#[test]
fn empty_and_blank_sources_are_empty_programs() {
    for input in ["", " ", "\n\t  \r\n", "\x0C"] {
        let program = parse(input).unwrap();
        assert_eq!(program.statements.len(), 0);
        assert_eq!(program.to_string(), "");

        let mut parser = Parser::new(Lexer::new(input));
        assert!(parser.parse_program().is_ok());
        assert!(parser.errors.is_empty());
    }
}

#[test]
fn two_malformed_lets_give_two_diagnostics() {
    let input = "let x 5; let y 10;";
    let mut parser = Parser::new(Lexer::new(input));
    let result = parser.parse_program();
    let errors = match result {
        Ok(_) => panic!("a tree came back"),
        Err(errors) => errors,
    };
    assert!(errors.len() >= 2);
    assert_eq!(
        errors,
        vec![
            "Expected next token to be: = got: 5".to_string(),
            "Expected next token to be: = got: 10".to_string(),
        ]
    );
    assert_eq!(parser.errors, errors);
}

#[test]
fn one_error_among_good_statements_gives_no_tree() {
    let errors = diagnostics("1 + 2; let = 3; 4");
    assert!(!errors.is_empty());
    assert_eq!(errors[0], "Not an identifier =");
}

#[test]
fn let_without_identifier() {
    assert_eq!(
        diagnostics("let 5 = 3;"),
        vec![
            "Not an identifier 5".to_string(),
            "no prefix parse rule for token =".to_string(),
        ]
    );
}

#[test]
fn missing_closing_parenthesis() {
    assert_eq!(
        diagnostics("(5 + 5"),
        vec!["Expected next token to be: ) got: EOF".to_string()]
    );
}

#[test]
fn if_without_parenthesis() {
    let errors = diagnostics("if x { y }");
    assert_eq!(errors[0], "Expected next token to be: ( got: x");
}

#[test]
fn if_without_brace() {
    let errors = diagnostics("if (x) y");
    assert_eq!(errors[0], "Expected next token to be: { got: y");
}

#[test]
fn else_without_brace() {
    let errors = diagnostics("if (x) { y } else z");
    assert_eq!(errors[0], "Expected next token to be: { got: z");
}

#[test]
fn no_prefix_rule() {
    assert_eq!(
        diagnostics("*"),
        vec!["no prefix parse rule for token *".to_string()]
    );
    assert_eq!(
        diagnostics("5 + ;"),
        vec!["no prefix parse rule for token ;".to_string()]
    );
    assert_eq!(
        diagnostics("@"),
        vec!["no prefix parse rule for token ILLEGAL".to_string()]
    );
}

#[test]
fn statements_may_leave_out_the_semicolon() {
    let program = parse("foobar").unwrap();
    assert_eq!(program.statements.len(), 1);
    assert_eq!(program.to_string(), "foobar");
}

#[test]
fn let_and_return_render_their_missing_value() {
    assert_eq!(render("let x = 5;"), "let x = None;");
    assert_eq!(render("return 5;"), "return None;");
    assert_eq!(render("let x = 5; return x; x"), "let x = None;return None;x");
}

#[test]
fn let_and_return_render_a_value_as_debug_writes_it() {
    let value = Expression::Literal(Literal::Integer(Integer {
        value: 5,
        span: Span { start: 8, end: 8 },
    }));
    let binding = Statement::Let(Let {
        identifier: Token::new(
            TokenKind::Ident {
                name: "x".to_string(),
            },
            4,
            4,
        ),
        exp: Some(value.clone()),
        span: Span { start: 0, end: 9 },
    });
    assert_eq!(
        binding.to_string(),
        "let x = Some(Literal(Integer(Integer { value: 5, span: Span { start: 8, end: 8 } })));"
    );
    let ret = Statement::Return(Return {
        exp: Some(ident("y", 7)),
        span: Span { start: 0, end: 8 },
    });
    assert_eq!(
        ret.to_string(),
        "return Some(Identifier(Ident { name: \"y\", span: Span { start: 7, end: 7 } }));"
    );
}

#[test]
fn let_without_semicolon_ends_at_the_end_of_the_source() {
    let program = parse("let x = 5").unwrap();
    assert_eq!(program.statements.len(), 1);
    match &program.statements[0] {
        Statement::Let(binding) => {
            assert_eq!(binding.span, Span { start: 0, end: 9 });
        }
        _ => panic!("not a let statement"),
    }
    let program = parse("return 1 + 2").unwrap();
    assert_eq!(program.statements.len(), 1);
}

#[test]
fn let_passes_over_everything_up_to_the_semicolon() {
    let program = parse("let x = ) * if ( ; y").unwrap();
    assert_eq!(program.statements.len(), 2);
    assert_eq!(program.to_string(), "let x = None;y");
}

#[test]
fn statement_spans() {
    let program = parse("let x = 5;  return 10;").unwrap();
    match &program.statements[0] {
        Statement::Let(binding) => {
            assert_eq!(binding.span, Span { start: 0, end: 9 });
            assert_eq!(binding.identifier.span, Span { start: 4, end: 4 });
        }
        _ => panic!("not a let statement"),
    }
    match &program.statements[1] {
        Statement::Return(ret) => {
            assert_eq!(ret.span, Span { start: 12, end: 21 });
        }
        _ => panic!("not a return statement"),
    }
}

#[test]
fn expression_trees_and_spans() {
    let program = parse("a + b * c").unwrap();
    let expected = Statement::Expression(Expression::Infix(InfixExp {
        left: Box::new(ident("a", 0)),
        operator: Token::new(TokenKind::Plus, 2, 2),
        right: Box::new(Expression::Infix(InfixExp {
            left: Box::new(ident("b", 4)),
            operator: Token::new(TokenKind::Star, 6, 6),
            right: Box::new(ident("c", 8)),
            span: Span { start: 4, end: 8 },
        })),
        span: Span { start: 0, end: 8 },
    }));
    assert_eq!(program.statements, vec![expected]);
}

#[test]
fn prefix_tree_and_span() {
    let program = parse("!true").unwrap();
    let expected = Statement::Expression(Expression::Prefix(PrefixExp {
        operator: Token::new(TokenKind::Bang, 0, 0),
        right: Box::new(Expression::Literal(Literal::Boolean(Boolean {
            value: true,
            span: Span { start: 1, end: 4 },
        }))),
        span: Span { start: 0, end: 4 },
    }));
    assert_eq!(program.statements, vec![expected]);
}

#[test]
fn grouping_leaves_no_node() {
    let program = parse("(a)").unwrap();
    assert_eq!(
        program.statements,
        vec![Statement::Expression(ident("a", 1))]
    );
}

#[test]
fn if_tree_and_span() {
    let program = parse("if (x) { y } else { z }").unwrap();
    let expected = Statement::Expression(Expression::If(IfExp {
        cond: Box::new(ident("x", 4)),
        consequence: BlockStatement {
            statements: vec![Statement::Expression(ident("y", 9))],
            span: Span { start: 7, end: 11 },
        },
        alternative: Some(BlockStatement {
            statements: vec![Statement::Expression(ident("z", 20))],
            span: Span { start: 18, end: 22 },
        }),
        span: Span { start: 0, end: 22 },
    }));
    assert_eq!(program.statements, vec![expected]);

    let program = parse("if (x) { y }").unwrap();
    match &program.statements[0] {
        Statement::Expression(Expression::If(branch)) => {
            assert_eq!(branch.alternative, None);
            assert_eq!(branch.span, Span { start: 0, end: 11 });
        }
        _ => panic!("not a conditional"),
    }
}

#[test]
fn blocks_hold_several_statements() {
    assert_eq!(
        render("if (a) { let b = 1; return b; b + 1 }"),
        "if a { let b = None;return None;(b + 1) }"
    );
    assert_eq!(render("if (a) { }"), "if a {  }");
}

#[test]
fn a_block_leaves_out_what_does_not_parse() {
    assert_eq!(render("if (a) { let 5; b }"), "if a { b }");
    assert_eq!(render("if (a) { let x 5; b }"), "if a { 5b }");
    assert_eq!(render("if (a) { * b }"), "if a { b }");
}

#[test]
fn a_block_that_is_not_closed_ends_with_the_source() {
    let program = parse("if (a) { b").unwrap();
    assert_eq!(program.to_string(), "if a { b }");
}

#[test]
fn nested_conditionals() {
    assert_eq!(
        render("if (a) { if (b) { c } else { d } } else { e }"),
        "if a { if b { c } else { d } } else { e }"
    );
}

#[test]
fn the_same_precedence_groups_to_the_left() {
    assert_eq!(render("a - b - c"), "((a - b) - c)");
    assert_eq!(render("a / b * c"), "((a / b) * c)");
    assert_eq!(render("a == b != c"), "((a == b) != c)");
    assert_eq!(render("a < b > c"), "((a < b) > c)");
}

#[test]
fn prefix_binds_tighter_than_every_infix() {
    assert_eq!(render("-a + b"), "((-a) + b)");
    assert_eq!(render("!a == b"), "((!a) == b)");
    assert_eq!(render("- - a"), "(-(-a))");
    assert_eq!(render("a * -b"), "(a * (-b))");
}

#[test]
fn precedence_ladder() {
    assert!(Precedence::Lowset < Precedence::Equals);
    assert!(Precedence::Equals < Precedence::LessGreater);
    assert!(Precedence::LessGreater < Precedence::Sum);
    assert!(Precedence::Sum < Precedence::Product);
    assert!(Precedence::Product < Precedence::Prefix);
    assert!(Precedence::Prefix < Precedence::Call);
    assert!(!(Precedence::Sum < Precedence::Sum));
    assert!(Precedence::Sum <= Precedence::Sum);
    assert!(Precedence::Call > Precedence::Lowset);
    assert_eq!(Precedence::Sum, Precedence::Sum);
}

#[test]
fn precedence_of_tokens() {
    assert_eq!(get_token_precedence(&TokenKind::Eq), Precedence::Equals);
    assert_eq!(get_token_precedence(&TokenKind::NotEq), Precedence::Equals);
    assert_eq!(get_token_precedence(&TokenKind::LT), Precedence::LessGreater);
    assert_eq!(get_token_precedence(&TokenKind::GT), Precedence::LessGreater);
    assert_eq!(get_token_precedence(&TokenKind::Plus), Precedence::Sum);
    assert_eq!(get_token_precedence(&TokenKind::Minus), Precedence::Sum);
    assert_eq!(get_token_precedence(&TokenKind::Star), Precedence::Product);
    assert_eq!(get_token_precedence(&TokenKind::Slash), Precedence::Product);
    assert_eq!(get_token_precedence(&TokenKind::LeftParen), Precedence::Lowset);
    assert_eq!(get_token_precedence(&TokenKind::Bang), Precedence::Lowset);
    assert_eq!(get_token_precedence(&TokenKind::Eof), Precedence::Lowset);
    assert_eq!(get_token_precedence(&TokenKind::Int(3)), Precedence::Lowset);
}

#[test]
fn trees_copy_by_value() {
    let program = parse("if (a < 1) { let b = 1; -b } else { !true }; c").unwrap();
    let copy = program.clone();
    assert_eq!(program, copy);
    assert_eq!(program.to_string(), copy.to_string());
    for statement in program.statements.iter() {
        assert_eq!(*statement, statement.clone());
    }
}

#[test]
fn nodes_render_as_what_they_hold() {
    let program = parse("a + 1").unwrap();
    let statement = program.statements[0].clone();
    let expression = match &statement {
        Statement::Expression(expression) => expression.clone(),
        _ => panic!("not an expression"),
    };
    assert_eq!(expression.to_string(), "(a + 1)");
    assert_eq!(statement.to_string(), "(a + 1)");
    assert_eq!(Node::Expression(expression).to_string(), "(a + 1)");
    assert_eq!(Node::Statement(statement).to_string(), "(a + 1)");
    assert_eq!(Node::Program(program).to_string(), "(a + 1)");
    assert_eq!(Program::new().to_string(), "");
    assert_eq!(
        Ident {
            name: "n".to_string(),
            span: Span { start: 0, end: 0 }
        }
        .to_string(),
        "n"
    );
    assert_eq!(
        Literal::Integer(Integer {
            value: -3,
            span: Span { start: 0, end: 1 }
        })
        .to_string(),
        "-3"
    );
    assert_eq!(
        Literal::Boolean(Boolean {
            value: false,
            span: Span { start: 0, end: 4 }
        })
        .to_string(),
        "false"
    );
    let block = BlockStatement {
        statements: vec![
            Statement::Expression(ident("a", 0)),
            Statement::Expression(ident("b", 2)),
        ],
        span: Span { start: 0, end: 2 },
    };
    assert_eq!(block.to_string(), "ab");
}

#[test]
fn parse_program_can_be_called_again_at_the_end() {
    let mut parser = Parser::new(Lexer::new("a; b"));
    let first = parser.parse_program().unwrap();
    assert_eq!(first.statements.len(), 2);
    let second = parser.parse_program().unwrap();
    assert_eq!(second.statements.len(), 0);
}

fn bound(value: Expression) -> Statement {
    Statement::Let(Let {
        identifier: Token::new(
            TokenKind::Ident {
                name: "x".to_string(),
            },
            4,
            4,
        ),
        exp: Some(value),
        span: Span { start: 0, end: 9 },
    })
}

#[test]
fn values_of_parsed_trees_render_as_debug_writes_them() {
    let sources = [
        "a",
        "5",
        "true; false",
        "!x; -x",
        "a + b * c - (d / e)",
        "1 < 2 == 3 > 4 != 5",
        "if (x < y) { let z = 1; return z; z } else { !z }",
        "if (a) { }",
        "if (a) { b; c; d }",
        "if (a) { if (b) { c } } else { if (d) { e } else { f } }",
        "9223372036854775807",
    ];
    for source in sources {
        let program = parse(source).unwrap();
        for statement in program.statements.iter() {
            let value = match statement {
                Statement::Expression(value) => value.clone(),
                _ => panic!("not an expression"),
            };
            assert_eq!(
                bound(value.clone()).to_string(),
                format!("let x = {:?};", Some(value.clone()))
            );
            let ret = Statement::Return(Return {
                exp: Some(value.clone()),
                span: Span { start: 0, end: 1 },
            });
            assert_eq!(ret.to_string(), format!("return {:?};", Some(value)));
        }
    }
}

#[test]
fn values_with_every_kind_of_token_render_as_debug_writes_them() {
    let kinds = vec![
        TokenKind::Eof,
        TokenKind::Illegal,
        TokenKind::Ident {
            name: "name".to_string(),
        },
        TokenKind::Int(0),
        TokenKind::Int(-12),
        TokenKind::Int(i64::MIN),
        TokenKind::String("text".to_string()),
        TokenKind::Assign,
        TokenKind::Plus,
        TokenKind::Bang,
        TokenKind::Minus,
        TokenKind::Slash,
        TokenKind::Star,
        TokenKind::LT,
        TokenKind::GT,
        TokenKind::Eq,
        TokenKind::NotEq,
        TokenKind::LeftParen,
        TokenKind::RightParen,
        TokenKind::LeftBrace,
        TokenKind::RightBrace,
        TokenKind::Comma,
        TokenKind::SemiColon,
        TokenKind::Let,
        TokenKind::Fn,
        TokenKind::True,
        TokenKind::False,
        TokenKind::If,
        TokenKind::Else,
        TokenKind::Return,
    ];
    for kind in kinds {
        let value = Expression::Prefix(PrefixExp {
            operator: Token::new(kind, 3, 1234567),
            right: Box::new(Expression::Literal(Literal::Integer(Integer {
                value: -5,
                span: Span {
                    start: usize::MAX,
                    end: 0,
                },
            }))),
            span: Span { start: 0, end: 10 },
        });
        assert_eq!(
            bound(value.clone()).to_string(),
            format!("let x = {:?};", Some(value))
        );
    }
}

#[test]
fn names_are_quoted_as_debug_quotes_them() {
    let names = ["", "plain", "with \"quotes\"", "back\\slash", "line\nbreak\ttab", "\u{e9}\u{0}\u{7f}"];
    for name in names {
        let value = Expression::Identifier(Ident {
            name: name.to_string(),
            span: Span { start: 1, end: 2 },
        });
        assert_eq!(
            bound(value.clone()).to_string(),
            format!("let x = {:?};", Some(value))
        );
        let held = Expression::Prefix(PrefixExp {
            operator: Token::new(TokenKind::String(name.to_string()), 0, 0),
            right: Box::new(Expression::Identifier(Ident {
                name: name.to_string(),
                span: Span { start: 1, end: 2 },
            })),
            span: Span { start: 0, end: 2 },
        });
        assert_eq!(
            bound(held.clone()).to_string(),
            format!("let x = {:?};", Some(held))
        );
    }
}

#[test]
fn values_that_hold_statements_with_values_render_as_debug_writes_them() {
    let inner = bound(ident("y", 0));
    let ret = Statement::Return(Return {
        exp: Some(Expression::Literal(Literal::Boolean(Boolean {
            value: true,
            span: Span { start: 3, end: 6 },
        }))),
        span: Span { start: 0, end: 7 },
    });
    let empty_return = Statement::Return(Return {
        exp: None,
        span: Span { start: 0, end: 7 },
    });
    let value = Expression::If(IfExp {
        cond: Box::new(ident("c", 4)),
        consequence: BlockStatement {
            statements: vec![inner, ret, empty_return],
            span: Span { start: 7, end: 30 },
        },
        alternative: Some(BlockStatement {
            statements: vec![],
            span: Span { start: 37, end: 39 },
        }),
        span: Span { start: 0, end: 39 },
    });
    assert_eq!(
        bound(value.clone()).to_string(),
        format!("let x = {:?};", Some(value))
    );
}
