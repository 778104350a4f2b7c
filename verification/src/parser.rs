//! The parser: precedence climbing over a two-token window.

pub mod ast;
pub mod binding;
pub mod cover;
pub mod extent;
pub mod grammar;
pub mod inspect;
pub mod precedence;
pub mod progress;
pub mod render;

use vstd::prelude::*;
use vstd::string::StringSliceAdditionalSpecFns;
use crate::lexer::token::{Span, Token, TokenKind};
use crate::lexer::Lexer;
use ast::{
    statements_view, BlockStatement, Boolean, Expression, Ident, IfExp, InfixExp, Integer, Let,
    Literal, PrefixExp, Program, ProgramView, Return, Statement,
};
use grammar::{
    advance, expect_peek, expectation_message, lemma_advance, let_statement, remaining,
    return_statement, settled, skip_to_semicolon, window_at, Parsed, Window,
};
use precedence::{get_token_precedence, Precedence};

verus! {

/// The messages that a list of diagnostics holds.
pub open spec fn messages_view(errors: Seq<String>) -> Seq<Seq<char>> {
    Seq::new(errors.len(), |i: int| errors[i]@)
}

/// The mathematical value of what a parsing step returns.
pub open spec fn outcome<T: View>(result: Result<T, String>) -> Result<T::V, Seq<char>> {
    match result {
        Ok(value) => Ok(value@),
        Err(message) => Err(message@),
    }
}

/// A parser over the tokens of a tokenizer. It looks at two tokens at a
/// time and keeps the diagnostics of the statements that did not parse.
pub struct Parser<'s> {
    lexer: Lexer<'s>,
    current_token: Token,
    peek_token: Token,
    pub errors: Vec<String>,
}

impl<'s> Parser<'s> {
    /// The bytes that this parser reads.
    pub closed spec fn source(&self) -> Seq<u8> {
        self.lexer.source()
    }

    /// The two tokens that the parser looks at, and where its tokenizer
    /// stands.
    pub closed spec fn window(&self) -> Window {
        Window {
            current: self.current_token@,
            peek: self.peek_token@,
            pos: self.lexer.position(),
        }
    }

    /// The diagnostics recorded so far, oldest first.
    pub closed spec fn diagnostics(&self) -> Seq<Seq<char>> {
        messages_view(self.errors@)
    }

    /// The window is one that the tokenizer produces.
    pub open spec fn well_formed(&self) -> bool {
        settled(self.source(), self.window())
    }

    /// A parsing step went from `before` to `self` and returned `result`
    /// as `expected` says: the same source and diagnostics, the expected
    /// result and window, and no more left to read than before.
    pub open spec fn follows<T: View>(
        &self,
        before: &Parser<'s>,
        result: Result<T, String>,
        expected: Parsed<T::V>,
    ) -> bool {
        &&& self.source() == before.source()
        &&& self.diagnostics() == before.diagnostics()
        &&& self.window() == expected.window
        &&& outcome(result) == expected.result
        &&& self.well_formed()
        &&& remaining(self.source(), self.window()) <= remaining(
            before.source(),
            before.window(),
        )
    }

    /// A parser over the tokens of `lexer`, standing on the first of them.
    pub fn new(mut lexer: Lexer<'s>) -> (parser: Self)
        ensures
            parser.source() == lexer.source(),
            parser.window() == window_at(lexer.source(), lexer.position()),
            parser.diagnostics().len() == 0,
            parser.well_formed(),
    {
        proof {
            grammar::lemma_window_at_is_settled(lexer.source(), lexer.position());
        }
        let current_token = lexer.next_token();
        let peek_token = lexer.next_token();
        Parser { lexer, current_token, peek_token, errors: Vec::new() }
    }

    /// Moves the window on by one token.
    fn bump(&mut self)
        requires
            old(self).well_formed(),
        ensures
            final(self).source() == old(self).source(),
            final(self).diagnostics() == old(self).diagnostics(),
            final(self).window() == advance(old(self).source(), old(self).window()),
            final(self).well_formed(),
            remaining(final(self).source(), final(self).window()) <= remaining(
                old(self).source(),
                old(self).window(),
            ),
            !(old(self).window().current.kind is Eof) ==> remaining(
                final(self).source(),
                final(self).window(),
            ) < remaining(old(self).source(), old(self).window()),
    {
        proof {
            lemma_advance(self.source(), self.window());
        }
        self.current_token = self.peek_token.clone();
        self.peek_token = self.lexer.next_token();
    }

    /// Moves onto the peeked token if it has the kind `kind`; gives a
    /// message and stays otherwise.
    fn expect_peek(&mut self, kind: &TokenKind) -> (result: Result<(), String>)
        requires
            old(self).well_formed(),
        ensures
            final(self).follows(
                old(self),
                result,
                expect_peek(old(self).source(), old(self).window(), kind@),
            ),
    {
        if self.peek_token.kind == *kind {
            self.bump();
            Ok(())
        } else {
            Err(expectation_text(kind, &self.peek_token.kind))
        }
    }

    /// Whether the parser stands on a token of kind `kind`.
    fn current_token_is(&self, kind: &TokenKind) -> (yes: bool)
        ensures
            yes == (self.window().current.kind == kind@),
    {
        self.current_token.kind == *kind
    }

    /// Whether the token after the one the parser stands on has the kind
    /// `kind`.
    fn peek_token_is(&self, kind: &TokenKind) -> (yes: bool)
        ensures
            yes == (self.window().peek.kind == kind@),
    {
        self.peek_token.kind == *kind
    }

    /// Moves on until the parser stands on a semicolon or on `Eof`.
    fn skip_to_semicolon(&mut self)
        requires
            old(self).well_formed(),
        ensures
            final(self).source() == old(self).source(),
            final(self).diagnostics() == old(self).diagnostics(),
            final(self).window() == skip_to_semicolon(old(self).source(), old(self).window()),
            final(self).well_formed(),
            remaining(final(self).source(), final(self).window()) <= remaining(
                old(self).source(),
                old(self).window(),
            ),
    {
        while !self.current_token_is(&TokenKind::SemiColon) && !self.current_token_is(
            &TokenKind::Eof,
        )
            invariant
                self.source() == old(self).source(),
                self.diagnostics() == old(self).diagnostics(),
                self.well_formed(),
                skip_to_semicolon(self.source(), self.window()) == skip_to_semicolon(
                    old(self).source(),
                    old(self).window(),
                ),
                remaining(self.source(), self.window()) <= remaining(
                    old(self).source(),
                    old(self).window(),
                ),
            decreases remaining(self.source(), self.window()),
        {
            self.bump();
        }
    }

    /// Parses a `let` statement.
    fn parse_let_statement(&mut self) -> (result: Result<Statement, String>)
        requires
            old(self).well_formed(),
        ensures
            final(self).follows(
                old(self),
                result,
                let_statement(old(self).source(), old(self).window()),
            ),
            result matches Ok(statement) ==> render::statement_well_formed(statement@),
    {
        if !self.current_token_is(&TokenKind::Let) {
            let found = self.current_token.kind.to_string();
            return Err("Expected LET found: ".to_string().concat(found.as_str()));
        }
        let start = self.current_token.span.start;

        self.bump();

        let ident = self.current_token.clone();
        match &self.current_token.kind {
            TokenKind::Ident { .. } => {},
            _ => {
                let found = self.current_token.kind.to_string();
                return Err("Not an identifier ".to_string().concat(found.as_str()));
            },
        }

        match self.expect_peek(&TokenKind::Assign) {
            Err(message) => {
                return Err(message);
            },
            Ok(_) => {},
        }

        self.skip_to_semicolon();

        let end = self.current_token.span.end;
        Ok(Statement::Let(Let { identifier: ident, exp: None, span: Span { start, end } }))
    }

    /// Parses a `return` statement.
    fn parse_return_statement(&mut self) -> (result: Result<Statement, String>)
        requires
            old(self).well_formed(),
        ensures
            final(self).follows(
                old(self),
                result,
                return_statement(old(self).source(), old(self).window()),
            ),
            result matches Ok(statement) ==> render::statement_well_formed(statement@),
    {
        if !self.current_token_is(&TokenKind::Return) {
            let found = self.current_token.kind.to_string();
            return Err("Expected RETURN found: ".to_string().concat(found.as_str()));
        }
        let start = self.current_token.span.start;

        self.skip_to_semicolon();

        let end = self.current_token.span.end;
        Ok(Statement::Return(Return { exp: None, span: Span { start, end } }))
    }

    /// Parses the whole source. Each statement that parses is added to the
    /// program, each one that does not adds a diagnostic, and after either
    /// the parser moves on by one token, until it stands on `Eof`. Returns
    /// the program if no diagnostic is on record, the diagnostics otherwise.
    pub fn parse_program(&mut self) -> (result: Result<Program, Vec<String>>)
        requires
            old(self).well_formed(),
        ensures
            final(self).source() == old(self).source(),
            final(self).well_formed(),
            ({
                let run = grammar::program(old(self).source(), old(self).window());
                &&& final(self).window() == run.window
                &&& final(self).diagnostics() == old(self).diagnostics() + run.errors
                &&& match result {
                    Ok(program) => {
                        &&& final(self).diagnostics().len() == 0
                        &&& program@.statements == run.statements
                        &&& program@.well_formed()
                    },
                    Err(errors) => {
                        &&& final(self).diagnostics().len() > 0
                        &&& messages_view(errors@) == final(self).diagnostics()
                    },
                }
            }),
    {
        let mut prog = Program::new();
        while !self.current_token_is(&TokenKind::Eof)
            invariant
                self.source() == old(self).source(),
                self.well_formed(),
                prog@.well_formed(),
                ({
                    let rest = grammar::program(self.source(), self.window());
                    let whole = grammar::program(old(self).source(), old(self).window());
                    &&& prog@.statements + rest.statements == whole.statements
                    &&& self.diagnostics() + rest.errors == old(self).diagnostics() + whole.errors
                    &&& rest.window == whole.window
                }),
            decreases remaining(self.source(), self.window()),
        {
            let ghost parsed_before = prog@.statements;
            let ghost refused_before = self.diagnostics();
            let ghost at = self.window();
            match self.parse_statement() {
                Ok(s) => {
                    prog.statements.push(s);
                },
                Err(e) => {
                    self.errors.push(e);
                },
            }

            self.bump();
            proof {
                let first = grammar::statement(self.source(), at);
                assert(prog@.statements =~= parsed_before + match first.result {
                    Ok(parsed) => seq![parsed],
                    Err(_) => Seq::empty(),
                });
                assert(self.diagnostics() =~= refused_before + match first.result {
                    Ok(_) => Seq::empty(),
                    Err(message) => seq![message],
                });
            }
        }

        if self.errors.len() == 0 {
            Ok(prog)
        } else {
            Err(copy_messages(&self.errors))
        }
    }

    /// Parses one statement, of the sort that the current token calls for.
    fn parse_statement(&mut self) -> (result: Result<Statement, String>)
        requires
            old(self).well_formed(),
        ensures
            final(self).follows(
                old(self),
                result,
                grammar::statement(old(self).source(), old(self).window()),
            ),
            result matches Ok(statement) ==> render::statement_well_formed(statement@),
        decreases remaining(old(self).source(), old(self).window()), 5nat,
    {
        match &self.current_token.kind {
            TokenKind::Let => self.parse_let_statement(),
            TokenKind::Return => self.parse_return_statement(),
            _ => self.parse_expression_statement(),
        }
    }

    /// Parses an expression and the semicolon after it, if there is one.
    fn parse_expression_statement(&mut self) -> (result: Result<Statement, String>)
        requires
            old(self).well_formed(),
        ensures
            final(self).follows(
                old(self),
                result,
                grammar::expression_statement(old(self).source(), old(self).window()),
            ),
            result matches Ok(statement) ==> render::statement_well_formed(statement@),
        decreases remaining(old(self).source(), old(self).window()), 4nat,
    {
        let exp = match self.parse_expression(Precedence::Lowset) {
            Err(message) => {
                return Err(message);
            },
            Ok(exp) => exp,
        };
        if self.peek_token_is(&TokenKind::SemiColon) {
            self.bump();
        }
        Ok(Statement::Expression(exp))
    }

    /// Parses an expression whose operators all bind tighter than
    /// `precedence`.
    fn parse_expression(&mut self, precedence: Precedence) -> (result: Result<Expression, String>)
        requires
            old(self).well_formed(),
        ensures
            final(self).follows(
                old(self),
                result,
                grammar::expression(old(self).source(), old(self).window(), precedence),
            ),
            result matches Ok(expression) ==> render::expression_well_formed(expression@),
        decreases remaining(old(self).source(), old(self).window()), 3nat,
    {
        let left_start = self.current_token.span.start;
        let mut left_exp = match self.parse_prefix_expression() {
            Err(message) => {
                return Err(message);
            },
            Ok(exp) => exp,
        };

        while !self.peek_token_is(&TokenKind::SemiColon) && precedence < get_token_precedence(
            &self.peek_token.kind,
        )
            invariant
                self.source() == old(self).source(),
                self.diagnostics() == old(self).diagnostics(),
                self.well_formed(),
                remaining(self.source(), self.window()) <= remaining(
                    old(self).source(),
                    old(self).window(),
                ),
                render::expression_well_formed(left_exp@),
                grammar::climb(self.source(), self.window(), left_exp@, left_start, precedence)
                    == grammar::expression(old(self).source(), old(self).window(), precedence),
            decreases remaining(self.source(), self.window()),
        {
            match self.parse_infix_expression(&left_exp, left_start) {
                Some(Ok(infix)) => {
                    left_exp = infix;
                },
                Some(Err(message)) => {
                    return Err(message);
                },
                None => {
                    return Ok(left_exp);
                },
            }
        }

        Ok(left_exp)
    }

    /// Parses the head of an expression.
    fn parse_prefix_expression(&mut self) -> (result: Result<Expression, String>)
        requires
            old(self).well_formed(),
        ensures
            final(self).follows(
                old(self),
                result,
                grammar::prefix_expression(old(self).source(), old(self).window()),
            ),
            result matches Ok(expression) ==> render::expression_well_formed(expression@),
        decreases remaining(old(self).source(), old(self).window()), 2nat,
    {
        let span = self.current_token.span;
        match &self.current_token.kind {
            TokenKind::Ident { name } => Ok(
                Expression::Identifier(Ident { name: name.clone(), span }),
            ),
            TokenKind::Int(value) => Ok(
                Expression::Literal(Literal::Integer(Integer { value: *value, span })),
            ),
            TokenKind::Bang | TokenKind::Minus => {
                let operator = self.current_token.clone();

                self.bump();

                let right = match self.parse_expression(Precedence::Prefix) {
                    Err(message) => {
                        return Err(message);
                    },
                    Ok(right) => right,
                };

                let start = span.start;
                let end = self.current_token.span.end;
                Ok(
                    Expression::Prefix(
                        PrefixExp { operator, right: Box::new(right), span: Span { start, end } },
                    ),
                )
            },
            TokenKind::True => Ok(
                Expression::Literal(Literal::Boolean(Boolean { value: true, span })),
            ),
            TokenKind::False => Ok(
                Expression::Literal(Literal::Boolean(Boolean { value: false, span })),
            ),
            TokenKind::LeftParen => {
                self.bump();

                let exp = match self.parse_expression(Precedence::Lowset) {
                    Err(message) => {
                        return Err(message);
                    },
                    Ok(exp) => exp,
                };

                match self.expect_peek(&TokenKind::RightParen) {
                    Err(message) => {
                        return Err(message);
                    },
                    Ok(_) => {},
                }

                Ok(exp)
            },
            TokenKind::If => self.parse_if_expression(),
            _ => {
                let found = self.current_token.kind.to_string();
                Err("no prefix parse rule for token ".to_string().concat(found.as_str()))
            },
        }
    }

    /// Parses an operator and its right-hand side onto `left`, where the
    /// peeked token is an infix operator; gives `None` where it is not.
    fn parse_infix_expression(&mut self, left: &Expression, left_start: usize) -> (result: Option<
        Result<Expression, String>,
    >)
        requires
            old(self).well_formed(),
            render::expression_well_formed(left@),
        ensures
            final(self).source() == old(self).source(),
            final(self).diagnostics() == old(self).diagnostics(),
            final(self).well_formed(),
            match grammar::infix_expression(
                old(self).source(),
                old(self).window(),
                left@,
                left_start,
            ) {
                None => result is None && final(self).window() == old(self).window(),
                Some(joined) => {
                    &&& result matches Some(found)
                    &&& outcome(found) == joined.result
                    &&& final(self).window() == joined.window
                    &&& remaining(final(self).source(), final(self).window()) < remaining(
                        old(self).source(),
                        old(self).window(),
                    )
                },
            },
            result matches Some(Ok(expression)) ==> render::expression_well_formed(expression@),
        decreases remaining(old(self).source(), old(self).window()), 0nat,
    {
        proof {
            lemma_advance(self.source(), self.window());
        }
        match &self.peek_token.kind {
            TokenKind::Eq
            | TokenKind::NotEq
            | TokenKind::LT
            | TokenKind::GT
            | TokenKind::Plus
            | TokenKind::Minus
            | TokenKind::Star
            | TokenKind::Slash => {
                self.bump();

                let op = self.current_token.clone();
                let prec = get_token_precedence(&self.current_token.kind);

                self.bump();

                let right = match self.parse_expression(prec) {
                    Err(message) => {
                        return Some(Err(message));
                    },
                    Ok(exp) => exp,
                };

                let end = self.current_token.span.end;

                Some(
                    Ok(
                        Expression::Infix(
                            InfixExp {
                                left: Box::new(left.clone()),
                                operator: op,
                                right: Box::new(right),
                                span: Span { start: left_start, end },
                            },
                        ),
                    ),
                )
            },
            _ => None,
        }
    }

    /// Parses a conditional; the parser stands on `if`.
    fn parse_if_expression(&mut self) -> (result: Result<Expression, String>)
        requires
            old(self).well_formed(),
        ensures
            final(self).follows(
                old(self),
                result,
                grammar::if_expression(old(self).source(), old(self).window()),
            ),
            result matches Ok(expression) ==> render::expression_well_formed(expression@),
        decreases remaining(old(self).source(), old(self).window()), 1nat,
    {
        proof {
            lemma_advance(self.source(), self.window());
        }
        let start = self.current_token.span.start;

        match self.expect_peek(&TokenKind::LeftParen) {
            Err(message) => {
                return Err(message);
            },
            Ok(_) => {},
        }
        self.bump();

        let cond = match self.parse_expression(Precedence::Lowset) {
            Err(message) => {
                return Err(message);
            },
            Ok(cond) => cond,
        };

        match self.expect_peek(&TokenKind::RightParen) {
            Err(message) => {
                return Err(message);
            },
            Ok(_) => {},
        }

        match self.expect_peek(&TokenKind::LeftBrace) {
            Err(message) => {
                return Err(message);
            },
            Ok(_) => {},
        }


        let consequence = match self.parse_block_statement() {
            Err(message) => {
                return Err(message);
            },
            Ok(block) => block,
        };

        let alternative = if self.peek_token_is(&TokenKind::Else) {
            self.bump();
            match self.expect_peek(&TokenKind::LeftBrace) {
                Err(message) => {
                    return Err(message);
                },
                Ok(_) => {},
            }
            match self.parse_block_statement() {
                Err(message) => {
                    return Err(message);
                },
                Ok(block) => Some(block),
            }
        } else {
            None
        };

        let end = self.current_token.span.end;

        Ok(
            Expression::If(
                IfExp { cond: Box::new(cond), consequence, alternative, span: Span { start, end } },
            ),
        )
    }

    /// Parses a block; the parser stands on its opening brace and ends on
    /// the closing one, or on `Eof` where the block is not closed.
    fn parse_block_statement(&mut self) -> (result: Result<BlockStatement, String>)
        requires
            old(self).well_formed(),
        ensures
            final(self).source() == old(self).source(),
            final(self).diagnostics() == old(self).diagnostics(),
            final(self).well_formed(),
            final(self).window() == grammar::block(old(self).source(), old(self).window()).window,
            remaining(final(self).source(), final(self).window()) <= remaining(
                old(self).source(),
                old(self).window(),
            ),
            result matches Ok(block) && block@ == grammar::block(
                old(self).source(),
                old(self).window(),
            ).block && render::block_well_formed(block@),
        decreases remaining(old(self).source(), old(self).window()), 7nat,
    {
        let start = self.current_token.span.start;
        self.bump();

        let mut statements: Vec<Statement> = Vec::new();
        while !self.current_token_is(&TokenKind::RightBrace) && !self.current_token_is(
            &TokenKind::Eof,
        )
            invariant
                self.source() == old(self).source(),
                self.diagnostics() == old(self).diagnostics(),
                self.well_formed(),
                remaining(self.source(), self.window()) <= remaining(
                    old(self).source(),
                    old(self).window(),
                ),
                render::statements_well_formed(statements_view(statements@)),
                ({
                    let rest = grammar::block_statements(self.source(), self.window());
                    let whole = grammar::block_statements(
                        old(self).source(),
                        advance(old(self).source(), old(self).window()),
                    );
                    &&& statements_view(statements@) + rest.statements == whole.statements
                    &&& rest.window == whole.window
                }),
            decreases remaining(self.source(), self.window()),
        {
            let ghost before = statements_view(statements@);
            let ghost at = self.window();
            if let Ok(s) = self.parse_statement() {
                statements.push(s);
            }
            self.bump();
            proof {
                let first = grammar::statement(self.source(), at);
                assert(statements_view(statements@) =~= before + match first.result {
                    Ok(parsed) => seq![parsed],
                    Err(_) => Seq::empty(),
                });
            }
        }

        let end = self.current_token.span.end;

        let block = BlockStatement { statements, span: Span { start, end } };
        Ok(block)
    }
}

/// What parsing the source `src` from its start gives: the program, or the
/// diagnostics if there are any.
pub open spec fn parse_result(src: Seq<u8>) -> Result<ProgramView, Seq<Seq<char>>> {
    let run = grammar::program(src, window_at(src, 0));
    if run.errors.len() == 0 {
        Ok(ProgramView { statements: run.statements })
    } else {
        Err(run.errors)
    }
}

/// The mathematical value of what `parse` returns.
pub open spec fn parse_outcome(result: Result<Program, Vec<String>>) -> Result<
    ProgramView,
    Seq<Seq<char>>,
> {
    match result {
        Ok(program) => Ok(program@),
        Err(errors) => Err(messages_view(errors@)),
    }
}

/// Parses `source`: the complete tree, or the list of diagnostics, which
/// then is not empty.
pub fn parse(source: &str) -> (result: Result<Program, Vec<String>>)
    ensures
        parse_outcome(result) == parse_result(source.spec_bytes()),
        result matches Ok(program) ==> program@.well_formed(),
{
    let lexer = Lexer::new(source);
    let mut parser = Parser::new(lexer);
    parser.parse_program()
}

/// A source that is empty or holds nothing but whitespace parses to a
/// program without statements, and leaves no diagnostic.
pub proof fn lemma_blank_source_is_an_empty_program(src: Seq<u8>)
    requires
        forall|i: int| 0 <= i < src.len() ==> crate::lexer::scan::is_space(#[trigger] src[i]),
    ensures
        parse_result(src) == Ok::<ProgramView, Seq<Seq<char>>>(
            ProgramView { statements: Seq::empty() },
        ),
        grammar::program(src, window_at(src, 0)).errors.len() == 0,
{
    crate::lexer::scan::lemma_skip_spaces_to_the_end(src, 0);
    crate::lexer::scan::lemma_scanning_moves_forward(src, 0);
}

/// Parsing gives a tree or diagnostics, never both: the diagnostics
/// exactly where at least one statement did not parse, and then all of
/// them, in the order of the source.
pub proof fn lemma_tree_or_diagnostics(src: Seq<u8>)
    ensures
        ({
            let run = grammar::program(src, window_at(src, 0));
            match parse_result(src) {
                Ok(tree) => run.errors.len() == 0 && tree.statements == run.statements
                    && tree.well_formed(),
                Err(errors) => errors.len() > 0 && errors == run.errors,
            }
        }),
{
    grammar::lemma_window_at_is_settled(src, 0);
    progress::lemma_program_ends_at_eof(src, window_at(src, 0));
}

/// The tree that parsing gives is faithful to the source: its statements
/// stand one after the other, in each of them every span begins no later
/// than it ends and holds the spans of the parts of its node, in their
/// order, and every token is the one that the source holds at its span.
pub proof fn lemma_tree_is_faithful_to_the_source(src: Seq<u8>)
    requires
        src.len() <= usize::MAX,
    ensures
        parse_result(src) matches Ok(tree) ==> {
            &&& extent::statements_drawn(src, tree.statements)
            &&& extent::statements_in_order(tree.statements)
            &&& forall|i: int|
                0 <= i < tree.statements.len() ==> extent::statement_spans_nest(
                    #[trigger] tree.statements[i],
                )
        },
{
    extent::lemma_window_at_is_in_order(src, 0);
    extent::lemma_program_spans(src, window_at(src, 0));
}

/// In the tree that parsing gives, operators nest as their precedence
/// says: without parentheses, the right-hand side of an operator binds
/// tighter than the operator, the left-hand side at least as tight, and
/// the operand of a prefix operator is no infix expression.
pub proof fn lemma_operators_nest_by_precedence(src: Seq<u8>)
    requires
        src.len() <= usize::MAX,
    ensures
        parse_result(src) matches Ok(tree) ==> binding::statements_bind(src, tree.statements),
{
    extent::lemma_window_at_is_in_order(src, 0);
    binding::lemma_program_binds(src, window_at(src, 0));
}

/// The tree that parsing gives leaves nothing out of its expressions:
/// between the parts of a prefix or an infix expression the source holds
/// nothing but parentheses and whitespace.
pub proof fn lemma_expressions_leave_nothing_out(src: Seq<u8>)
    requires
        src.len() <= usize::MAX,
    ensures
        parse_result(src) matches Ok(tree) ==> cover::statements_cover(src, tree.statements),
{
    extent::lemma_window_at_is_in_order(src, 0);
    cover::lemma_program_covers(src, window_at(src, 0));
}

/// A copy of a list of diagnostics.
fn copy_messages(errors: &Vec<String>) -> (copy: Vec<String>)
    ensures
        messages_view(copy@) == messages_view(errors@),
{
    let mut copy: Vec<String> = Vec::new();
    let mut i: usize = 0;
    while i < errors.len()
        invariant
            i <= errors.len(),
            copy@.len() == i,
            forall|k: int| 0 <= k < i ==> (#[trigger] copy@[k])@ == errors@[k]@,
        decreases errors.len() - i,
    {
        copy.push(errors[i].clone());
        i += 1;
    }
    copy
}

/// The message for a token that is not the expected one.
fn expectation_text(expected: &TokenKind, found: &TokenKind) -> (message: String)
    ensures
        message@ == expectation_message(expected@, found@),
{
    let mut message = "Expected next token to be: ".to_string();
    let expected_text = expected.to_string();
    message.append(expected_text.as_str());
    message.append(" got: ");
    let found_text = found.to_string();
    message.append(found_text.as_str());
    message
}

} // verus!
