//! Parsing moves forward: no construct leaves more to read than it found,
//! so every comparison of what remains, which the definitions in
//! `grammar` make before they go on, comes out true.

use vstd::prelude::*;
use crate::lexer::token::TokenKindView;
use crate::parser::ast::ExpressionView;
use crate::parser::grammar::{
    advance, alternative, block, block_statements, climb, condition, expect_peek, expression,
    expression_statement, if_expression, infix_expression, lemma_advance, let_statement,
    prefix_expression, program, remaining, return_statement, settled, skip_to_semicolon,
    statement, Window,
};
use crate::parser::precedence::{precedence_of, Precedence};
use crate::parser::render::{
    block_well_formed, expression_well_formed, statement_well_formed, statements_well_formed,
};

verus! {

/// The window `to` is one that parsing can reach from the settled window
/// `from`: it is settled and has no more left to read.
pub open spec fn reached(src: Seq<u8>, from: Window, to: Window) -> bool {
    settled(src, to) && remaining(src, to) <= remaining(src, from)
}

/// Two steps from a window whose peeked token is not `Eof` leave less to
/// read.
pub proof fn lemma_advance_twice_moves_forward(src: Seq<u8>, w: Window)
    requires
        !(w.peek.kind is Eof),
    ensures
        remaining(src, advance(src, advance(src, w))) < remaining(src, w),
{
    lemma_advance(src, w);
}

/// Expecting a token moves forward.
pub proof fn lemma_expect_peek_moves_forward(src: Seq<u8>, w: Window, kind: TokenKindView)
    requires
        settled(src, w),
    ensures
        reached(src, w, expect_peek(src, w, kind).window),
{
    lemma_advance(src, w);
}

/// Skipping to a semicolon moves forward, and ends on a semicolon or on
/// `Eof`.
pub proof fn lemma_skip_to_semicolon_moves_forward(src: Seq<u8>, w: Window)
    requires
        settled(src, w),
    ensures
        reached(src, w, skip_to_semicolon(src, w)),
        skip_to_semicolon(src, w).current.kind is SemiColon || skip_to_semicolon(
            src,
            w,
        ).current.kind is Eof,
    decreases remaining(src, w),
{
    if !(w.current.kind is SemiColon || w.current.kind is Eof) {
        lemma_advance(src, w);
        lemma_skip_to_semicolon_moves_forward(src, advance(src, w));
    }
}

/// A `let` statement moves forward, and what it binds is an identifier.
pub proof fn lemma_let_statement_moves_forward(src: Seq<u8>, w: Window)
    requires
        settled(src, w),
    ensures
        reached(src, w, let_statement(src, w).window),
        let_statement(src, w).result matches Ok(parsed) ==> statement_well_formed(parsed),
{
    lemma_advance(src, w);
    let named = advance(src, w);
    lemma_expect_peek_moves_forward(src, named, TokenKindView::Assign);
    lemma_skip_to_semicolon_moves_forward(
        src,
        expect_peek(src, named, TokenKindView::Assign).window,
    );
}

/// A `return` statement moves forward.
pub proof fn lemma_return_statement_moves_forward(src: Seq<u8>, w: Window)
    requires
        settled(src, w),
    ensures
        reached(src, w, return_statement(src, w).window),
        return_statement(src, w).result matches Ok(parsed) ==> statement_well_formed(parsed),
{
    lemma_skip_to_semicolon_moves_forward(src, w);
}

/// An expression moves forward, and every `let` in it binds an
/// identifier.
pub proof fn lemma_expression_moves_forward(src: Seq<u8>, w: Window, precedence: Precedence)
    requires
        settled(src, w),
    ensures
        reached(src, w, expression(src, w, precedence).window),
        expression(src, w, precedence).result matches Ok(parsed) ==> expression_well_formed(
            parsed,
        ),
    decreases remaining(src, w), 3nat,
{
    lemma_prefix_expression_moves_forward(src, w);
    let head = prefix_expression(src, w);
    match head.result {
        Err(_) => {},
        Ok(left) => {
            lemma_climb_moves_forward(src, head.window, left, w.current.span.start, precedence);
        },
    }
}

/// The infix loop moves forward.
pub proof fn lemma_climb_moves_forward(
    src: Seq<u8>,
    w: Window,
    left: ExpressionView,
    left_start: usize,
    precedence: Precedence,
)
    requires
        settled(src, w),
        expression_well_formed(left),
    ensures
        reached(src, w, climb(src, w, left, left_start, precedence).window),
        climb(src, w, left, left_start, precedence).result matches Ok(parsed)
            ==> expression_well_formed(parsed),
    decreases remaining(src, w), 1nat,
{
    if !(w.peek.kind is SemiColon || !(precedence.rank() < precedence_of(w.peek.kind).rank())) {
        lemma_infix_expression_moves_forward(src, w, left, left_start);
        match infix_expression(src, w, left, left_start) {
            None => {},
            Some(joined) => match joined.result {
                Err(_) => {},
                Ok(wider) => {
                    lemma_climb_moves_forward(src, joined.window, wider, left_start, precedence);
                },
            },
        }
    }
}

/// An infix expression ends with less left to read than it found.
pub proof fn lemma_infix_expression_moves_forward(
    src: Seq<u8>,
    w: Window,
    left: ExpressionView,
    left_start: usize,
)
    requires
        settled(src, w),
        expression_well_formed(left),
    ensures
        infix_expression(src, w, left, left_start) matches Some(joined) ==> {
            &&& settled(src, joined.window)
            &&& remaining(src, joined.window) < remaining(src, w)
            &&& joined.result matches Ok(parsed) ==> expression_well_formed(parsed)
        },
    decreases remaining(src, w), 0nat,
{
    if infix_expression(src, w, left, left_start) is Some {
        lemma_advance(src, w);
        let at_operator = advance(src, w);
        lemma_advance(src, at_operator);
        lemma_expression_moves_forward(
            src,
            advance(src, at_operator),
            precedence_of(at_operator.current.kind),
        );
    }
}

/// The head of an expression moves forward.
pub proof fn lemma_prefix_expression_moves_forward(src: Seq<u8>, w: Window)
    requires
        settled(src, w),
    ensures
        reached(src, w, prefix_expression(src, w).window),
        prefix_expression(src, w).result matches Ok(parsed) ==> expression_well_formed(parsed),
    decreases remaining(src, w), 2nat,
{
    lemma_advance(src, w);
    match w.current.kind {
        TokenKindView::Bang | TokenKindView::Minus => {
            lemma_expression_moves_forward(src, advance(src, w), Precedence::Prefix);
        },
        TokenKindView::LeftParen => {
            lemma_expression_moves_forward(src, advance(src, w), Precedence::Lowset);
            let inner = expression(src, advance(src, w), Precedence::Lowset);
            lemma_expect_peek_moves_forward(src, inner.window, TokenKindView::RightParen);
        },
        TokenKindView::If => {
            lemma_if_expression_moves_forward(src, w);
        },
        _ => {},
    }
}

/// The start of a conditional moves forward, and where it succeeds it
/// ends with less left to read than it found.
pub proof fn lemma_condition_moves_forward(src: Seq<u8>, w: Window)
    requires
        settled(src, w),
    ensures
        reached(src, w, condition(src, w).window),
        condition(src, w).result matches Ok(parsed) ==> {
            &&& remaining(src, condition(src, w).window) < remaining(src, w)
            &&& expression_well_formed(parsed)
        },
    decreases remaining(src, w), 0nat,
{
    lemma_advance(src, w);
    let opened = expect_peek(src, w, TokenKindView::LeftParen);
    if opened.result is Ok {
        lemma_advance(src, opened.window);
        let inside = advance(src, opened.window);
        lemma_expression_moves_forward(src, inside, Precedence::Lowset);
        let cond = expression(src, inside, Precedence::Lowset);
        lemma_expect_peek_moves_forward(src, cond.window, TokenKindView::RightParen);
        let closed = expect_peek(src, cond.window, TokenKindView::RightParen);
        lemma_expect_peek_moves_forward(src, closed.window, TokenKindView::LeftBrace);
    }
}

/// The `else` branch of a conditional moves forward.
pub proof fn lemma_alternative_moves_forward(src: Seq<u8>, origin: Window, w: Window)
    requires
        settled(src, w),
        remaining(src, w) < remaining(src, origin),
    ensures
        reached(src, w, alternative(src, origin, w).window),
        alternative(src, origin, w).result matches Ok(Some(parsed)) ==> block_well_formed(parsed),
    decreases remaining(src, origin), 0nat,
{
    if w.peek.kind is Else {
        lemma_advance(src, w);
        lemma_expect_peek_moves_forward(src, advance(src, w), TokenKindView::LeftBrace);
        let braced = expect_peek(src, advance(src, w), TokenKindView::LeftBrace);
        if braced.result is Ok {
            lemma_block_moves_forward(src, braced.window);
        }
    }
}

/// A conditional moves forward.
pub proof fn lemma_if_expression_moves_forward(src: Seq<u8>, w: Window)
    requires
        settled(src, w),
    ensures
        reached(src, w, if_expression(src, w).window),
        if_expression(src, w).result matches Ok(parsed) ==> expression_well_formed(parsed),
    decreases remaining(src, w), 1nat,
{
    lemma_condition_moves_forward(src, w);
    let cond = condition(src, w);
    if cond.result is Ok {
        lemma_block_moves_forward(src, cond.window);
        let consequence = block(src, cond.window);
        lemma_alternative_moves_forward(src, w, consequence.window);
    }
}

/// A block moves forward, and every `let` in it binds an identifier.
pub proof fn lemma_block_moves_forward(src: Seq<u8>, w: Window)
    requires
        settled(src, w),
    ensures
        reached(src, w, block(src, w).window),
        block_well_formed(block(src, w).block),
    decreases remaining(src, w), 7nat,
{
    lemma_advance(src, w);
    lemma_block_statements_move_forward(src, advance(src, w));
}

/// The statements of a block move forward.
pub proof fn lemma_block_statements_move_forward(src: Seq<u8>, w: Window)
    requires
        settled(src, w),
    ensures
        reached(src, w, block_statements(src, w).window),
        statements_well_formed(block_statements(src, w).statements),
    decreases remaining(src, w), 6nat,
{
    if !(w.current.kind is RightBrace || w.current.kind is Eof) {
        lemma_statement_moves_forward(src, w);
        let first = statement(src, w);
        lemma_advance(src, first.window);
        lemma_block_statements_move_forward(src, advance(src, first.window));
    }
}

/// A statement moves forward, and the window one token behind it has less
/// left to read than the window before it, unless that stood on `Eof`.
pub proof fn lemma_statement_moves_forward(src: Seq<u8>, w: Window)
    requires
        settled(src, w),
    ensures
        reached(src, w, statement(src, w).window),
        !(w.current.kind is Eof) ==> remaining(src, advance(src, statement(src, w).window))
            < remaining(src, w),
        statement(src, w).result matches Ok(parsed) ==> statement_well_formed(parsed),
    decreases remaining(src, w), 5nat,
{
    match w.current.kind {
        TokenKindView::Let => {
            lemma_let_statement_moves_forward(src, w);
        },
        TokenKindView::Return => {
            lemma_return_statement_moves_forward(src, w);
        },
        _ => {
            lemma_expression_statement_moves_forward(src, w);
        },
    }
    lemma_advance(src, statement(src, w).window);
}

/// An expression statement moves forward.
pub proof fn lemma_expression_statement_moves_forward(src: Seq<u8>, w: Window)
    requires
        settled(src, w),
    ensures
        reached(src, w, expression_statement(src, w).window),
        expression_statement(src, w).result matches Ok(parsed) ==> statement_well_formed(parsed),
    decreases remaining(src, w), 4nat,
{
    lemma_expression_moves_forward(src, w, Precedence::Lowset);
    lemma_advance(src, expression(src, w, Precedence::Lowset).window);
}

/// Parsing a whole source ends on `Eof`, in a settled window, and every
/// `let` in the statements it gives binds an identifier.
pub proof fn lemma_program_ends_at_eof(src: Seq<u8>, w: Window)
    requires
        settled(src, w),
    ensures
        settled(src, program(src, w).window),
        program(src, w).window.current.kind is Eof,
        statements_well_formed(program(src, w).statements),
    decreases remaining(src, w),
{
    if !(w.current.kind is Eof) {
        lemma_statement_moves_forward(src, w);
        let first = statement(src, w);
        lemma_advance(src, first.window);
        lemma_program_ends_at_eof(src, advance(src, first.window));
    }
}

} // verus!
