//! Operators nest as their precedence says. In a parsed tree, an infix
//! expression that stands without parentheses as the right-hand side of
//! an operator binds tighter than that operator, one that stands as the
//! left-hand side binds at least as tight, so that operators of the same
//! precedence group to the left, and the operand of a prefix operator is
//! never an infix expression without parentheses.

use vstd::prelude::*;
use crate::lexer::scan::token_at;
use crate::lexer::token::{TokenKindView, TokenView};
use crate::parser::ast::{ExpressionView, StatementView};
use crate::parser::extent::{
    expression_span, in_order, lemma_advance_keeps_order, lemma_block_spans,
    lemma_expression_spans, lemma_statement_spans,
};
use crate::parser::grammar::{
    advance, alternative, block, block_statements, climb, condition, expect_peek, expression,
    expression_statement, if_expression, infix_expression, lemma_advance, prefix_expression,
    program, remaining, statement, Window,
};
use crate::parser::precedence::{precedence_of, Precedence};
use crate::parser::progress::{
    lemma_block_moves_forward, lemma_condition_moves_forward, lemma_expect_peek_moves_forward,
    lemma_expression_moves_forward, lemma_prefix_expression_moves_forward,
    lemma_statement_moves_forward,
};

verus! {

/// The offset at which the token after `token` begins.
pub open spec fn start_after(src: Seq<u8>, token: TokenView) -> usize {
    token_at(src, (token.span.end + 1) as nat).token.span.start
}

/// The expression is an infix expression that begins at `start`. An
/// expression in parentheses begins behind `start` where the parenthesis
/// stands at `start`, so this tells the infix expressions that stand there
/// without parentheses.
pub open spec fn bare_infix_at(expression: ExpressionView, start: usize) -> bool {
    expression is Infix && expression_span(expression).start == start
}

/// The rank of the operator of an infix expression.
pub open spec fn operator_rank(expression: ExpressionView) -> nat {
    match expression {
        ExpressionView::Infix { operator, .. } => precedence_of(operator.kind).rank(),
        _ => 0,
    }
}

/// Every operator in the expression holds what its precedence says it
/// holds.
pub open spec fn expression_binds(src: Seq<u8>, expression: ExpressionView) -> bool
    decreases expression, 0nat,
{
    match expression {
        ExpressionView::Identifier { .. } => true,
        ExpressionView::Integer { .. } => true,
        ExpressionView::Boolean { .. } => true,
        ExpressionView::Prefix { operator, right, .. } => {
            &&& !bare_infix_at(*right, start_after(src, operator))
            &&& expression_binds(src, *right)
        },
        ExpressionView::Infix { left, operator, right, span } => {
            &&& bare_infix_at(*left, span.start) ==> operator_rank(*left) >= precedence_of(
                operator.kind,
            ).rank()
            &&& bare_infix_at(*right, start_after(src, operator)) ==> operator_rank(*right)
                > precedence_of(operator.kind).rank()
            &&& expression_binds(src, *left)
            &&& expression_binds(src, *right)
        },
        ExpressionView::If { cond, consequence, alternative, .. } => {
            &&& expression_binds(src, *cond)
            &&& statements_bind(src, consequence.statements)
            &&& match alternative {
                Some(other) => statements_bind(src, other.statements),
                None => true,
            }
        },
    }
}

/// Every operator in the statement holds what its precedence says.
pub open spec fn statement_binds(src: Seq<u8>, statement: StatementView) -> bool
    decreases statement, 0nat,
{
    match statement {
        StatementView::Let { exp, .. } => match exp {
            Some(value) => expression_binds(src, value),
            None => true,
        },
        StatementView::Return { exp, .. } => match exp {
            Some(value) => expression_binds(src, value),
            None => true,
        },
        StatementView::Expression(expression) => expression_binds(src, expression),
    }
}

/// Every operator in the statements holds what its precedence says.
pub open spec fn statements_bind(src: Seq<u8>, statements: Seq<StatementView>) -> bool
    decreases statements, 0nat,
{
    forall|i: int| 0 <= i < statements.len() ==> statement_binds(src, #[trigger] statements[i])
}

/// The infix loop stops at `w` for the floor `rank`: the peeked token is a
/// semicolon or binds no tighter than `rank`.
pub open spec fn stops(w: Window, rank: nat) -> bool {
    w.peek.kind is SemiColon || precedence_of(w.peek.kind).rank() <= rank
}

/// No infix operator binds as tight as a prefix operator.
pub proof fn lemma_no_infix_operator_binds_like_a_prefix(expression: ExpressionView)
    ensures
        operator_rank(expression) < Precedence::Prefix.rank(),
{
}

/// An expression parsed above the floor `precedence`: its operators bind
/// as their precedence says, an infix expression at its top binds tighter
/// than the floor, and what follows it binds no tighter than the floor.
pub proof fn lemma_expression_binds(src: Seq<u8>, w: Window, precedence: Precedence)
    requires
        in_order(src, w),
    ensures
        expression(src, w, precedence).result matches Ok(parsed) ==> {
            &&& expression_binds(src, parsed)
            &&& bare_infix_at(parsed, w.current.span.start) ==> operator_rank(parsed)
                > precedence.rank()
            &&& stops(expression(src, w, precedence).window, precedence.rank())
        },
    decreases remaining(src, w), 3nat,
{
    lemma_prefix_expression_binds(src, w);
    lemma_prefix_expression_moves_forward(src, w);
    crate::parser::extent::lemma_prefix_expression_spans(src, w);
    let head = prefix_expression(src, w);
    match head.result {
        Err(_) => {},
        Ok(left) => {
            lemma_climb_binds(src, head.window, left, w.current.span.start, precedence);
        },
    }
}

proof fn lemma_climb_binds(
    src: Seq<u8>,
    w: Window,
    left: ExpressionView,
    left_start: usize,
    precedence: Precedence,
)
    requires
        in_order(src, w),
        expression_binds(src, left),
        bare_infix_at(left, left_start) ==> operator_rank(left) > precedence.rank() && stops(
            w,
            operator_rank(left),
        ),
    ensures
        climb(src, w, left, left_start, precedence).result matches Ok(parsed) ==> {
            &&& expression_binds(src, parsed)
            &&& bare_infix_at(parsed, left_start) ==> operator_rank(parsed) > precedence.rank()
            &&& stops(climb(src, w, left, left_start, precedence).window, precedence.rank())
        },
    decreases remaining(src, w), 1nat,
{
    if !(w.peek.kind is SemiColon || !(precedence.rank() < precedence_of(w.peek.kind).rank())) {
        lemma_infix_expression_binds(src, w, left, left_start);
        match infix_expression(src, w, left, left_start) {
            None => {},
            Some(joined) => match joined.result {
                Err(_) => {},
                Ok(wider) => {
                    lemma_climb_binds(src, joined.window, wider, left_start, precedence);
                },
            },
        }
    }
}

proof fn lemma_infix_expression_binds(
    src: Seq<u8>,
    w: Window,
    left: ExpressionView,
    left_start: usize,
)
    requires
        in_order(src, w),
        expression_binds(src, left),
        bare_infix_at(left, left_start) ==> stops(w, operator_rank(left)),
    ensures
        infix_expression(src, w, left, left_start) matches Some(joined) ==> {
            &&& in_order(src, joined.window)
            &&& remaining(src, joined.window) < remaining(src, w)
            &&& joined.result matches Ok(parsed) ==> {
                &&& expression_binds(src, parsed)
                &&& bare_infix_at(parsed, left_start)
                &&& operator_rank(parsed) == precedence_of(w.peek.kind).rank()
                &&& stops(joined.window, operator_rank(parsed))
            }
        },
    decreases remaining(src, w), 0nat,
{
    if infix_expression(src, w, left, left_start) is Some {
        lemma_advance(src, w);
        lemma_advance_keeps_order(src, w);
        let at_operator = advance(src, w);
        lemma_advance(src, at_operator);
        lemma_advance_keeps_order(src, at_operator);
        let operand_start = advance(src, at_operator);
        let floor = precedence_of(at_operator.current.kind);
        lemma_expression_binds(src, operand_start, floor);
        lemma_expression_spans(src, operand_start, floor);
        lemma_expression_moves_forward(src, operand_start, floor);
    }
}

proof fn lemma_prefix_expression_binds(src: Seq<u8>, w: Window)
    requires
        in_order(src, w),
    ensures
        prefix_expression(src, w).result matches Ok(parsed) ==> {
            &&& expression_binds(src, parsed)
            &&& !bare_infix_at(parsed, w.current.span.start)
        },
    decreases remaining(src, w), 2nat,
{
    lemma_advance(src, w);
    lemma_advance_keeps_order(src, w);
    match w.current.kind {
        TokenKindView::Bang | TokenKindView::Minus => {
            lemma_expression_binds(src, advance(src, w), Precedence::Prefix);
            let operand = expression(src, advance(src, w), Precedence::Prefix);
            match operand.result {
                Ok(right) => {
                    lemma_no_infix_operator_binds_like_a_prefix(right);
                },
                Err(_) => {},
            }
        },
        TokenKindView::LeftParen => {
            lemma_expression_binds(src, advance(src, w), Precedence::Lowset);
            lemma_expression_spans(src, advance(src, w), Precedence::Lowset);
        },
        TokenKindView::If => {
            lemma_if_expression_binds(src, w);
        },
        _ => {},
    }
}

proof fn lemma_condition_binds(src: Seq<u8>, w: Window)
    requires
        in_order(src, w),
    ensures
        condition(src, w).result matches Ok(parsed) ==> expression_binds(src, parsed),
    decreases remaining(src, w), 0nat,
{
    lemma_advance(src, w);
    lemma_advance_keeps_order(src, w);
    let opened = expect_peek(src, w, TokenKindView::LeftParen);
    if opened.result is Ok {
        lemma_advance(src, opened.window);
        lemma_advance_keeps_order(src, opened.window);
        lemma_expression_binds(src, advance(src, opened.window), Precedence::Lowset);
    }
}

proof fn lemma_alternative_binds(src: Seq<u8>, origin: Window, w: Window)
    requires
        in_order(src, w),
        remaining(src, w) < remaining(src, origin),
    ensures
        alternative(src, origin, w).result matches Ok(Some(parsed)) ==> statements_bind(
            src,
            parsed.statements,
        ),
    decreases remaining(src, origin), 0nat,
{
    if w.peek.kind is Else {
        lemma_advance(src, w);
        lemma_advance_keeps_order(src, w);
        lemma_expect_peek_moves_forward(src, advance(src, w), TokenKindView::LeftBrace);
        lemma_advance_keeps_order(src, advance(src, w));
        let braced = expect_peek(src, advance(src, w), TokenKindView::LeftBrace);
        if braced.result is Ok {
            lemma_block_binds(src, braced.window);
        }
    }
}

proof fn lemma_if_expression_binds(src: Seq<u8>, w: Window)
    requires
        in_order(src, w),
    ensures
        if_expression(src, w).result matches Ok(parsed) ==> parsed is If && expression_binds(
            src,
            parsed,
        ),
    decreases remaining(src, w), 1nat,
{
    lemma_condition_binds(src, w);
    lemma_condition_moves_forward(src, w);
    crate::parser::extent::lemma_condition_spans(src, w);
    let cond = condition(src, w);
    if cond.result is Ok {
        lemma_block_binds(src, cond.window);
        lemma_block_moves_forward(src, cond.window);
        lemma_block_spans(src, cond.window);
        let consequence = block(src, cond.window);
        lemma_alternative_binds(src, w, consequence.window);
    }
}

proof fn lemma_block_binds(src: Seq<u8>, w: Window)
    requires
        in_order(src, w),
    ensures
        statements_bind(src, block(src, w).block.statements),
    decreases remaining(src, w), 7nat,
{
    lemma_advance(src, w);
    lemma_advance_keeps_order(src, w);
    lemma_block_statements_bind(src, advance(src, w));
}

proof fn lemma_block_statements_bind(src: Seq<u8>, w: Window)
    requires
        in_order(src, w),
    ensures
        statements_bind(src, block_statements(src, w).statements),
    decreases remaining(src, w), 6nat,
{
    if !(w.current.kind is RightBrace || w.current.kind is Eof) {
        lemma_statement_binds(src, w);
        lemma_statement_spans(src, w);
        lemma_statement_moves_forward(src, w);
        let first = statement(src, w);
        lemma_advance_keeps_order(src, first.window);
        let next = advance(src, first.window);
        lemma_block_statements_bind(src, next);
        let rest = block_statements(src, next);
        let whole = block_statements(src, w);
        assert forall|i: int| 0 <= i < whole.statements.len() implies statement_binds(
            src,
            #[trigger] whole.statements[i],
        ) by {
            if first.result is Ok && i == 0 {
            } else {
                let k = if first.result is Ok { i - 1 } else { i };
                assert(whole.statements[i] == rest.statements[k]);
                assert(statement_binds(src, rest.statements[k]));
            }
        }
    }
}

/// The operators of a statement bind as their precedence says.
pub proof fn lemma_statement_binds(src: Seq<u8>, w: Window)
    requires
        in_order(src, w),
    ensures
        statement(src, w).result matches Ok(parsed) ==> statement_binds(src, parsed),
    decreases remaining(src, w), 5nat,
{
    match w.current.kind {
        TokenKindView::Let => {},
        TokenKindView::Return => {},
        _ => {
            lemma_expression_statement_binds(src, w);
        },
    }
}

proof fn lemma_expression_statement_binds(src: Seq<u8>, w: Window)
    requires
        in_order(src, w),
    ensures
        expression_statement(src, w).result matches Ok(parsed) ==> statement_binds(src, parsed),
    decreases remaining(src, w), 4nat,
{
    lemma_expression_binds(src, w, Precedence::Lowset);
}

/// In every statement that parsing a source gives, the operators bind as
/// their precedence says.
pub proof fn lemma_program_binds(src: Seq<u8>, w: Window)
    requires
        in_order(src, w),
    ensures
        statements_bind(src, program(src, w).statements),
    decreases remaining(src, w),
{
    if !(w.current.kind is Eof) {
        lemma_statement_binds(src, w);
        lemma_statement_spans(src, w);
        lemma_statement_moves_forward(src, w);
        let first = statement(src, w);
        lemma_advance_keeps_order(src, first.window);
        let next = advance(src, first.window);
        lemma_program_binds(src, next);
        let rest = program(src, next);
        let whole = program(src, w);
        assert forall|i: int| 0 <= i < whole.statements.len() implies statement_binds(
            src,
            #[trigger] whole.statements[i],
        ) by {
            if first.result is Ok && i == 0 {
            } else {
                let k = if first.result is Ok { i - 1 } else { i };
                assert(whole.statements[i] == rest.statements[k]);
                assert(statement_binds(src, rest.statements[k]));
            }
        }
    }
}

} // verus!
