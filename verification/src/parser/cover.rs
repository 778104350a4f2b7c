//! A parsed expression leaves nothing out: between the parts of a prefix
//! or an infix expression the source holds nothing but parentheses and
//! whitespace.

use vstd::prelude::*;
use crate::lexer::scan::{is_space, lemma_skip_spaces, lemma_token_extent, token_at};
use crate::lexer::token::{TokenKindView, TokenView};
use crate::parser::ast::{ExpressionView, StatementView};
use crate::parser::extent::{
    comes_next, drawn, expression_span, in_order, lemma_advance_keeps_order, lemma_block_spans,
    lemma_condition_spans, lemma_expression_spans, lemma_prefix_expression_spans,
    lemma_statement_spans,
};
use crate::parser::grammar::{
    advance, alternative, block, block_statements, climb, condition, expect_peek, expression,
    expression_statement, if_expression, infix_expression, lemma_advance, prefix_expression,
    program, remaining, statement, Window,
};
use crate::parser::precedence::{precedence_of, Precedence};
use crate::parser::progress::{
    lemma_block_moves_forward, lemma_condition_moves_forward, lemma_expect_peek_moves_forward,
    lemma_expression_moves_forward, lemma_prefix_expression_moves_forward,
    lemma_statement_moves_forward,
};

verus! {

/// From the offset `from` up to, not including, the offset `to`, the
/// source holds only opening parentheses and whitespace.
pub open spec fn opens(src: Seq<u8>, from: int, to: int) -> bool {
    forall|p: int|
        from <= p < to && p < src.len() ==> #[trigger] src[p] == ('(' as u8) || is_space(src[p])
}

/// Behind the offset `after` up to, and including, the offset `to`, the
/// source holds only closing parentheses and whitespace.
pub open spec fn closes(src: Seq<u8>, after: int, to: int) -> bool {
    forall|p: int|
        after < p <= to && p < src.len() ==> #[trigger] src[p] == (')' as u8) || is_space(src[p])
}

/// Nothing is left out of the expression: in a prefix expression only
/// opening parentheses stand between the operator and its operand, and
/// only closing ones behind the operand; in an infix expression only
/// opening parentheses stand before each side, and only closing ones
/// behind it.
pub open spec fn expression_covers(src: Seq<u8>, expression: ExpressionView) -> bool
    decreases expression, 0nat,
{
    match expression {
        ExpressionView::Identifier { .. } => true,
        ExpressionView::Integer { .. } => true,
        ExpressionView::Boolean { .. } => true,
        ExpressionView::Prefix { operator, right, span } => {
            &&& opens(src, operator.span.end + 1, expression_span(*right).start as int)
            &&& closes(src, expression_span(*right).end as int, span.end as int)
            &&& expression_covers(src, *right)
        },
        ExpressionView::Infix { left, operator, right, span } => {
            &&& opens(src, span.start as int, expression_span(*left).start as int)
            &&& closes(src, expression_span(*left).end as int, operator.span.start - 1)
            &&& opens(src, operator.span.end + 1, expression_span(*right).start as int)
            &&& closes(src, expression_span(*right).end as int, span.end as int)
            &&& expression_covers(src, *left)
            &&& expression_covers(src, *right)
        },
        ExpressionView::If { cond, consequence, alternative, .. } => {
            &&& expression_covers(src, *cond)
            &&& statements_cover(src, consequence.statements)
            &&& match alternative {
                Some(other) => statements_cover(src, other.statements),
                None => true,
            }
        },
    }
}

/// Nothing is left out of the expressions of the statement.
pub open spec fn statement_covers(src: Seq<u8>, statement: StatementView) -> bool
    decreases statement, 0nat,
{
    match statement {
        StatementView::Let { exp, .. } => match exp {
            Some(value) => expression_covers(src, value),
            None => true,
        },
        StatementView::Return { exp, .. } => match exp {
            Some(value) => expression_covers(src, value),
            None => true,
        },
        StatementView::Expression(expression) => expression_covers(src, expression),
    }
}

/// Nothing is left out of the expressions of the statements.
pub open spec fn statements_cover(src: Seq<u8>, statements: Seq<StatementView>) -> bool
    decreases statements, 0nat,
{
    forall|i: int| 0 <= i < statements.len() ==> statement_covers(src, #[trigger] statements[i])
}

/// Between a token and the one that comes next, the source holds only
/// whitespace.
pub proof fn lemma_blank_between_tokens(src: Seq<u8>, token: TokenView, next: TokenView)
    requires
        src.len() <= usize::MAX,
        token.span.end < src.len(),
        comes_next(src, token, next),
    ensures
        forall|p: int|
            token.span.end < p < next.span.start && p < src.len() ==> is_space(#[trigger] src[p]),
{
    lemma_token_extent(src, (token.span.end + 1) as nat);
    lemma_skip_spaces(src, (token.span.end + 1) as nat);
    reveal(token_at);
}

/// A parenthesis is one byte of the source.
pub proof fn lemma_parenthesis_is_one_byte(src: Seq<u8>, token: TokenView)
    requires
        src.len() <= usize::MAX,
        drawn(src, token),
        token.kind is LeftParen || token.kind is RightParen,
    ensures
        token.span.start == token.span.end,
        token.span.start < src.len(),
        token.kind is LeftParen ==> src[token.span.start as int] == ('(' as u8),
        token.kind is RightParen ==> src[token.span.start as int] == (')' as u8),
{
    lemma_token_extent(src, token.span.start as nat);
    lemma_skip_spaces(src, token.span.start as nat);
    crate::lexer::scan::lemma_word_end(src, token.span.start as nat);
    reveal(token_at);
}

/// The current token of a window lies in the source unless it is `Eof`.
proof fn lemma_current_lies_in_the_source(src: Seq<u8>, w: Window)
    requires
        in_order(src, w),
        !(w.current.kind is Eof),
    ensures
        w.current.span.end < src.len(),
{
    lemma_token_extent(src, w.current.span.start as nat);
}

/// Around an expression stand only parentheses: opening ones from the
/// token at which parsing began up to the expression, closing ones from
/// the expression through the token at which parsing stopped.
pub proof fn lemma_expression_covers(src: Seq<u8>, w: Window, precedence: Precedence)
    requires
        in_order(src, w),
    ensures
        expression(src, w, precedence).result matches Ok(parsed) ==> {
            &&& expression_covers(src, parsed)
            &&& opens(src, w.current.span.start as int, expression_span(parsed).start as int)
            &&& closes(
                src,
                expression_span(parsed).end as int,
                expression(src, w, precedence).window.current.span.end as int,
            )
        },
    decreases remaining(src, w), 3nat,
{
    lemma_prefix_expression_covers(src, w);
    lemma_prefix_expression_moves_forward(src, w);
    lemma_prefix_expression_spans(src, w);
    let head = prefix_expression(src, w);
    match head.result {
        Err(_) => {},
        Ok(left) => {
            lemma_climb_covers(src, head.window, left, w.current.span.start, precedence);
        },
    }
}

proof fn lemma_climb_covers(
    src: Seq<u8>,
    w: Window,
    left: ExpressionView,
    left_start: usize,
    precedence: Precedence,
)
    requires
        in_order(src, w),
        expression_covers(src, left),
        opens(src, left_start as int, expression_span(left).start as int),
        closes(src, expression_span(left).end as int, w.current.span.end as int),
    ensures
        climb(src, w, left, left_start, precedence).result matches Ok(parsed) ==> {
            &&& expression_covers(src, parsed)
            &&& opens(src, left_start as int, expression_span(parsed).start as int)
            &&& closes(
                src,
                expression_span(parsed).end as int,
                climb(src, w, left, left_start, precedence).window.current.span.end as int,
            )
        },
    decreases remaining(src, w), 1nat,
{
    if !(w.peek.kind is SemiColon || !(precedence.rank() < precedence_of(w.peek.kind).rank())) {
        lemma_infix_expression_covers(src, w, left, left_start);
        match infix_expression(src, w, left, left_start) {
            None => {},
            Some(joined) => match joined.result {
                Err(_) => {},
                Ok(wider) => {
                    lemma_climb_covers(src, joined.window, wider, left_start, precedence);
                },
            },
        }
    }
}

proof fn lemma_infix_expression_covers(
    src: Seq<u8>,
    w: Window,
    left: ExpressionView,
    left_start: usize,
)
    requires
        in_order(src, w),
        expression_covers(src, left),
        opens(src, left_start as int, expression_span(left).start as int),
        closes(src, expression_span(left).end as int, w.current.span.end as int),
    ensures
        infix_expression(src, w, left, left_start) matches Some(joined) ==> {
            &&& in_order(src, joined.window)
            &&& remaining(src, joined.window) < remaining(src, w)
            &&& joined.result matches Ok(parsed) ==> {
                &&& expression_covers(src, parsed)
                &&& expression_span(parsed).start == left_start
                &&& expression_span(parsed).end == joined.window.current.span.end
            }
        },
    decreases remaining(src, w), 0nat,
{
    if infix_expression(src, w, left, left_start) is Some {
        lemma_advance(src, w);
        lemma_advance_keeps_order(src, w);
        let at_operator = advance(src, w);
        lemma_advance(src, at_operator);
        lemma_advance_keeps_order(src, at_operator);
        let operand_start = advance(src, at_operator);
        let floor = precedence_of(at_operator.current.kind);
        lemma_expression_covers(src, operand_start, floor);
        lemma_expression_spans(src, operand_start, floor);
        lemma_expression_moves_forward(src, operand_start, floor);
        lemma_current_lies_in_the_source(src, at_operator);
        lemma_blank_between_tokens(src, at_operator.current, at_operator.peek);
        if !(w.current.kind is Eof) {
            lemma_current_lies_in_the_source(src, w);
            lemma_blank_between_tokens(src, w.current, w.peek);
        }
    }
}

proof fn lemma_prefix_expression_covers(src: Seq<u8>, w: Window)
    requires
        in_order(src, w),
    ensures
        prefix_expression(src, w).result matches Ok(parsed) ==> {
            &&& expression_covers(src, parsed)
            &&& opens(src, w.current.span.start as int, expression_span(parsed).start as int)
            &&& closes(
                src,
                expression_span(parsed).end as int,
                prefix_expression(src, w).window.current.span.end as int,
            )
        },
    decreases remaining(src, w), 2nat,
{
    lemma_advance(src, w);
    lemma_advance_keeps_order(src, w);
    match w.current.kind {
        TokenKindView::Bang | TokenKindView::Minus => {
            lemma_expression_covers(src, advance(src, w), Precedence::Prefix);
            lemma_expression_spans(src, advance(src, w), Precedence::Prefix);
            lemma_current_lies_in_the_source(src, w);
            lemma_blank_between_tokens(src, w.current, w.peek);
        },
        TokenKindView::LeftParen => {
            let inside = advance(src, w);
            lemma_expression_covers(src, inside, Precedence::Lowset);
            lemma_expression_spans(src, inside, Precedence::Lowset);
            lemma_expression_moves_forward(src, inside, Precedence::Lowset);
            let inner = expression(src, inside, Precedence::Lowset);
            lemma_current_lies_in_the_source(src, w);
            lemma_blank_between_tokens(src, w.current, w.peek);
            lemma_parenthesis_is_one_byte(src, w.current);
            let closed = expect_peek(src, inner.window, TokenKindView::RightParen);
            if inner.result is Ok && closed.result is Ok {
                lemma_advance_keeps_order(src, inner.window);
                lemma_parenthesis_is_one_byte(src, inner.window.peek);
                lemma_current_lies_in_the_source(src, inner.window);
                lemma_blank_between_tokens(src, inner.window.current, inner.window.peek);
            }
        },
        TokenKindView::If => {
            lemma_if_expression_covers(src, w);
        },
        _ => {},
    }
}

proof fn lemma_condition_covers(src: Seq<u8>, w: Window)
    requires
        in_order(src, w),
    ensures
        condition(src, w).result matches Ok(parsed) ==> expression_covers(src, parsed),
    decreases remaining(src, w), 0nat,
{
    lemma_advance(src, w);
    lemma_advance_keeps_order(src, w);
    let opened = expect_peek(src, w, TokenKindView::LeftParen);
    if opened.result is Ok {
        lemma_advance(src, opened.window);
        lemma_advance_keeps_order(src, opened.window);
        lemma_expression_covers(src, advance(src, opened.window), Precedence::Lowset);
    }
}

proof fn lemma_alternative_covers(src: Seq<u8>, origin: Window, w: Window)
    requires
        in_order(src, w),
        remaining(src, w) < remaining(src, origin),
    ensures
        alternative(src, origin, w).result matches Ok(Some(parsed)) ==> statements_cover(
            src,
            parsed.statements,
        ),
    decreases remaining(src, origin), 0nat,
{
    if w.peek.kind is Else {
        lemma_advance(src, w);
        lemma_advance_keeps_order(src, w);
        lemma_expect_peek_moves_forward(src, advance(src, w), TokenKindView::LeftBrace);
        lemma_advance_keeps_order(src, advance(src, w));
        let braced = expect_peek(src, advance(src, w), TokenKindView::LeftBrace);
        if braced.result is Ok {
            lemma_block_covers(src, braced.window);
        }
    }
}

proof fn lemma_if_expression_covers(src: Seq<u8>, w: Window)
    requires
        in_order(src, w),
    ensures
        if_expression(src, w).result matches Ok(parsed) ==> {
            &&& expression_covers(src, parsed)
            &&& expression_span(parsed).start == w.current.span.start
            &&& expression_span(parsed).end == if_expression(src, w).window.current.span.end
        },
    decreases remaining(src, w), 1nat,
{
    lemma_condition_covers(src, w);
    lemma_condition_moves_forward(src, w);
    lemma_condition_spans(src, w);
    let cond = condition(src, w);
    if cond.result is Ok {
        lemma_block_covers(src, cond.window);
        lemma_block_moves_forward(src, cond.window);
        lemma_block_spans(src, cond.window);
        let consequence = block(src, cond.window);
        lemma_alternative_covers(src, w, consequence.window);
    }
}

proof fn lemma_block_covers(src: Seq<u8>, w: Window)
    requires
        in_order(src, w),
    ensures
        statements_cover(src, block(src, w).block.statements),
    decreases remaining(src, w), 7nat,
{
    lemma_advance(src, w);
    lemma_advance_keeps_order(src, w);
    lemma_block_statements_cover(src, advance(src, w));
}

proof fn lemma_block_statements_cover(src: Seq<u8>, w: Window)
    requires
        in_order(src, w),
    ensures
        statements_cover(src, block_statements(src, w).statements),
    decreases remaining(src, w), 6nat,
{
    if !(w.current.kind is RightBrace || w.current.kind is Eof) {
        lemma_statement_covers(src, w);
        lemma_statement_spans(src, w);
        lemma_statement_moves_forward(src, w);
        let first = statement(src, w);
        lemma_advance_keeps_order(src, first.window);
        let next = advance(src, first.window);
        lemma_block_statements_cover(src, next);
        let rest = block_statements(src, next);
        let whole = block_statements(src, w);
        assert forall|i: int| 0 <= i < whole.statements.len() implies statement_covers(
            src,
            #[trigger] whole.statements[i],
        ) by {
            if first.result is Ok && i == 0 {
            } else {
                let k = if first.result is Ok { i - 1 } else { i };
                assert(whole.statements[i] == rest.statements[k]);
                assert(statement_covers(src, rest.statements[k]));
            }
        }
    }
}

/// Nothing is left out of the expressions of a statement.
pub proof fn lemma_statement_covers(src: Seq<u8>, w: Window)
    requires
        in_order(src, w),
    ensures
        statement(src, w).result matches Ok(parsed) ==> statement_covers(src, parsed),
    decreases remaining(src, w), 5nat,
{
    match w.current.kind {
        TokenKindView::Let => {},
        TokenKindView::Return => {},
        _ => {
            lemma_expression_statement_covers(src, w);
        },
    }
}

proof fn lemma_expression_statement_covers(src: Seq<u8>, w: Window)
    requires
        in_order(src, w),
    ensures
        expression_statement(src, w).result matches Ok(parsed) ==> statement_covers(src, parsed),
    decreases remaining(src, w), 4nat,
{
    lemma_expression_covers(src, w, Precedence::Lowset);
}

/// Nothing is left out of the expressions of the statements that parsing
/// a source gives.
pub proof fn lemma_program_covers(src: Seq<u8>, w: Window)
    requires
        in_order(src, w),
    ensures
        statements_cover(src, program(src, w).statements),
    decreases remaining(src, w),
{
    if !(w.current.kind is Eof) {
        lemma_statement_covers(src, w);
        lemma_statement_spans(src, w);
        lemma_statement_moves_forward(src, w);
        let first = statement(src, w);
        lemma_advance_keeps_order(src, first.window);
        let next = advance(src, first.window);
        lemma_program_covers(src, next);
        let rest = program(src, next);
        let whole = program(src, w);
        assert forall|i: int| 0 <= i < whole.statements.len() implies statement_covers(
            src,
            #[trigger] whole.statements[i],
        ) by {
            if first.result is Ok && i == 0 {
            } else {
                let k = if first.result is Ok { i - 1 } else { i };
                assert(whole.statements[i] == rest.statements[k]);
                assert(statement_covers(src, rest.statements[k]));
            }
        }
    }
}

} // verus!
