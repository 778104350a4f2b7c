//! Spans in a parsed tree: every node's span begins no later than it ends
//! and holds the spans of the node's parts, which stand in the order of
//! the source, and every token in the tree is the token that the source
//! holds at its span.

use vstd::prelude::*;
use crate::lexer::scan::{
    lemma_skip_spaces, lemma_span_holds_the_lexeme, lemma_token_extent,
    lemma_token_is_found_at_its_start, lexeme, literal_value, token_at,
};
use crate::text::bytes_as_chars;
use crate::lexer::token::{Span, TokenKindView, TokenView};
use crate::parser::ast::{BlockView, ExpressionView, StatementView};
use crate::parser::grammar::{
    advance, alternative, block, block_statements, climb, condition, expect_peek, expression,
    expression_statement, if_expression, infix_expression, lemma_advance, let_statement,
    prefix_expression, program, remaining, return_statement, settled, skip_to_semicolon,
    statement, window_at, Window,
};
use crate::parser::precedence::{precedence_of, Precedence};

verus! {

/// The span begins no later than it ends.
pub open spec fn proper(span: Span) -> bool {
    span.start <= span.end
}

/// The span `inner` lies inside the span `outer`.
pub open spec fn within(inner: Span, outer: Span) -> bool {
    outer.start <= inner.start && inner.end <= outer.end
}

/// The span of an expression.
pub open spec fn expression_span(expression: ExpressionView) -> Span {
    match expression {
        ExpressionView::Identifier { span, .. } => span,
        ExpressionView::Integer { span, .. } => span,
        ExpressionView::Boolean { span, .. } => span,
        ExpressionView::Prefix { span, .. } => span,
        ExpressionView::Infix { span, .. } => span,
        ExpressionView::If { span, .. } => span,
    }
}

/// The span of a statement; that of its expression for an expression
/// statement.
pub open spec fn statement_span(statement: StatementView) -> Span {
    match statement {
        StatementView::Let { span, .. } => span,
        StatementView::Return { span, .. } => span,
        StatementView::Expression(expression) => expression_span(expression),
    }
}

/// The span `first` ends before the span `second` begins.
pub open spec fn before(first: Span, second: Span) -> bool {
    first.end < second.start
}

/// Every span in the expression is proper, and the span of every node
/// holds the spans of its operator and of its parts, one after the other.
pub open spec fn expression_spans_nest(expression: ExpressionView) -> bool
    decreases expression, 0nat,
{
    match expression {
        ExpressionView::Identifier { span, .. } => proper(span),
        ExpressionView::Integer { span, .. } => proper(span),
        ExpressionView::Boolean { span, .. } => proper(span),
        ExpressionView::Prefix { operator, right, span } => {
            &&& proper(span)
            &&& within(operator.span, span)
            &&& within(expression_span(*right), span)
            &&& before(operator.span, expression_span(*right))
            &&& expression_spans_nest(*right)
        },
        ExpressionView::Infix { left, operator, right, span } => {
            &&& proper(span)
            &&& within(expression_span(*left), span)
            &&& within(operator.span, span)
            &&& within(expression_span(*right), span)
            &&& before(expression_span(*left), operator.span)
            &&& before(operator.span, expression_span(*right))
            &&& expression_spans_nest(*left)
            &&& expression_spans_nest(*right)
        },
        ExpressionView::If { cond, consequence, alternative, span } => {
            &&& proper(span)
            &&& within(expression_span(*cond), span)
            &&& within(consequence.span, span)
            &&& before(expression_span(*cond), consequence.span)
            &&& expression_spans_nest(*cond)
            &&& block_spans_nest(consequence)
            &&& match alternative {
                Some(other) => {
                    &&& within(other.span, span)
                    &&& before(consequence.span, other.span)
                    &&& block_spans_nest(other)
                },
                None => true,
            }
        },
    }
}

/// Every span in the statement is proper and holds the spans of its parts.
pub open spec fn statement_spans_nest(statement: StatementView) -> bool
    decreases statement, 0nat,
{
    match statement {
        StatementView::Let { identifier, exp, span } => {
            &&& proper(span)
            &&& within(identifier.span, span)
            &&& match exp {
                Some(value) => within(expression_span(value), span) && expression_spans_nest(
                    value,
                ),
                None => true,
            }
        },
        StatementView::Return { exp, span } => {
            &&& proper(span)
            &&& match exp {
                Some(value) => within(expression_span(value), span) && expression_spans_nest(
                    value,
                ),
                None => true,
            }
        },
        StatementView::Expression(expression) => expression_spans_nest(expression),
    }
}

/// Every statement's spans nest, and the statement lies inside `outer`.
pub open spec fn statements_span_within(statements: Seq<StatementView>, outer: Span) -> bool
    decreases statements, 0nat,
{
    forall|i: int|
        0 <= i < statements.len() ==> {
            &&& statement_spans_nest(#[trigger] statements[i])
            &&& within(statement_span(statements[i]), outer)
        }
}

/// The statements stand one after the other.
pub open spec fn statements_in_order(statements: Seq<StatementView>) -> bool {
    forall|i: int, j: int|
        0 <= i < j < statements.len() ==> before(
            statement_span(#[trigger] statements[i]),
            statement_span(#[trigger] statements[j]),
        )
}

/// The span of the block is proper and holds its statements, whose spans
/// nest, one after the other.
pub open spec fn block_spans_nest(block: BlockView) -> bool
    decreases block, 0nat,
{
    &&& proper(block.span)
    &&& statements_span_within(block.statements, block.span)
    &&& statements_in_order(block.statements)
}

/// The token is the one that the tokenizer gives where it starts on the
/// token's first byte.
pub open spec fn drawn(src: Seq<u8>, token: TokenView) -> bool {
    token_at(src, token.span.start as nat).token == token
}

/// What is drawn from the source spells it: the bytes at the span of an
/// operator, a keyword or an identifier are its text, and the bytes at the
/// span of an integer are the digits of its value.
pub proof fn lemma_drawn_token_spells_the_source(src: Seq<u8>, token: TokenView)
    requires
        src.len() <= usize::MAX,
        drawn(src, token),
    ensures
        match token.kind {
            TokenKindView::Eof => true,
            TokenKindView::Illegal => true,
            TokenKindView::Int(value) => value == literal_value(lexeme(src, token)),
            kind => bytes_as_chars(lexeme(src, token)) == kind.text(),
        },
{
    lemma_span_holds_the_lexeme(src, token.span.start as nat);
}

/// Every token in the expression is drawn from the source: its operators,
/// and its identifiers and literals, which stand for the token of their
/// name or value at their span. A conditional begins at an `if`.
pub open spec fn expression_drawn(src: Seq<u8>, expression: ExpressionView) -> bool
    decreases expression, 0nat,
{
    match expression {
        ExpressionView::Identifier { name, span } => drawn(
            src,
            TokenView { kind: TokenKindView::Ident { name }, span },
        ),
        ExpressionView::Integer { value, span } => drawn(
            src,
            TokenView { kind: TokenKindView::Int(value), span },
        ),
        ExpressionView::Boolean { value, span } => drawn(
            src,
            TokenView {
                kind: if value {
                    TokenKindView::True
                } else {
                    TokenKindView::False
                },
                span,
            },
        ),
        ExpressionView::Prefix { operator, right, .. } => {
            &&& drawn(src, operator)
            &&& expression_drawn(src, *right)
        },
        ExpressionView::Infix { left, operator, right, .. } => {
            &&& drawn(src, operator)
            &&& expression_drawn(src, *left)
            &&& expression_drawn(src, *right)
        },
        ExpressionView::If { cond, consequence, alternative, span } => {
            &&& token_at(src, span.start as nat).token.kind is If
            &&& expression_drawn(src, *cond)
            &&& statements_drawn(src, consequence.statements)
            &&& match alternative {
                Some(other) => statements_drawn(src, other.statements),
                None => true,
            }
        },
    }
}

/// Every token in the statement is drawn from the source, and a `let` or
/// a `return` statement begins at its keyword.
pub open spec fn statement_drawn(src: Seq<u8>, statement: StatementView) -> bool
    decreases statement, 0nat,
{
    match statement {
        StatementView::Let { identifier, exp, span } => {
            &&& token_at(src, span.start as nat).token.kind is Let
            &&& drawn(src, identifier)
            &&& match exp {
                Some(value) => expression_drawn(src, value),
                None => true,
            }
        },
        StatementView::Return { exp, span } => {
            &&& token_at(src, span.start as nat).token.kind is Return
            &&& match exp {
                Some(value) => expression_drawn(src, value),
                None => true,
            }
        },
        StatementView::Expression(expression) => expression_drawn(src, expression),
    }
}

/// Every token in the statements is drawn from the source.
pub open spec fn statements_drawn(src: Seq<u8>, statements: Seq<StatementView>) -> bool
    decreases statements, 0nat,
{
    forall|i: int| 0 <= i < statements.len() ==> statement_drawn(src, #[trigger] statements[i])
}

/// The token `next` is the one that follows the token `token` in the
/// source, and begins behind its end.
pub open spec fn comes_next(src: Seq<u8>, token: TokenView, next: TokenView) -> bool {
    &&& next == token_at(src, (token.span.end + 1) as nat).token
    &&& token.span.end < next.span.start
}

/// A window whose tokens stand in the order of the source: each span is
/// proper, the current token ends before the peeked one begins, the
/// tokenizer stands behind both, both are drawn from the source, and the
/// peeked token is the one that follows the current one.
pub open spec fn in_order(src: Seq<u8>, w: Window) -> bool {
    &&& settled(src, w)
    &&& src.len() <= usize::MAX
    &&& w.pos <= src.len()
    &&& proper(w.current.span)
    &&& proper(w.peek.span)
    &&& w.current.span.end <= w.peek.span.start
    &&& w.peek.span.end <= w.pos
    &&& drawn(src, w.current)
    &&& drawn(src, w.peek)
    &&& !(w.current.kind is Eof) ==> comes_next(src, w.current, w.peek)
    &&& !(w.peek.kind is Eof) ==> w.pos == w.peek.span.end + 1
}

/// The window `to` stands no earlier in the source than the window `from`.
pub open spec fn later(from: Window, to: Window) -> bool {
    &&& from.current.span.start <= to.current.span.start
    &&& from.current.span.end <= to.current.span.end
}

/// The span from the token that `from` stands on through the token that
/// `to` stands on.
pub open spec fn stretch(from: Window, to: Window) -> Span {
    Span { start: from.current.span.start, end: to.current.span.end }
}

/// Parsing went from the window `from` to the window `to` in the order of
/// the source.
pub open spec fn onward(src: Seq<u8>, from: Window, to: Window) -> bool {
    in_order(src, to) && later(from, to)
}

/// The window over the first tokens of a source is in order.
pub proof fn lemma_window_at_is_in_order(src: Seq<u8>, pos: nat)
    requires
        pos <= src.len() <= usize::MAX,
    ensures
        in_order(src, window_at(src, pos)),
{
    crate::parser::grammar::lemma_window_at_is_settled(src, pos);
    lemma_token_extent(src, pos);
    lemma_skip_spaces(src, pos);
    let first = token_at(src, pos);
    lemma_token_extent(src, first.next);
    lemma_skip_spaces(src, first.next);
    lemma_token_is_found_at_its_start(src, pos);
    lemma_token_is_found_at_its_start(src, first.next);
    reveal(token_at);
}

/// Moving on by one token keeps the order.
pub proof fn lemma_advance_keeps_order(src: Seq<u8>, w: Window)
    requires
        in_order(src, w),
    ensures
        onward(src, w, advance(src, w)),
{
    lemma_advance(src, w);
    lemma_token_extent(src, w.pos);
    lemma_skip_spaces(src, w.pos);
    lemma_token_is_found_at_its_start(src, w.pos);
    reveal(token_at);
}

proof fn lemma_expect_peek_keeps_order(src: Seq<u8>, w: Window, kind: TokenKindView)
    requires
        in_order(src, w),
    ensures
        onward(src, w, expect_peek(src, w, kind).window),
{
    lemma_advance_keeps_order(src, w);
}

proof fn lemma_skip_to_semicolon_keeps_order(src: Seq<u8>, w: Window)
    requires
        in_order(src, w),
    ensures
        onward(src, w, skip_to_semicolon(src, w)),
    decreases remaining(src, w),
{
    if !(w.current.kind is SemiColon || w.current.kind is Eof) {
        lemma_advance(src, w);
        lemma_advance_keeps_order(src, w);
        lemma_skip_to_semicolon_keeps_order(src, advance(src, w));
    }
}

/// The spans of a `let` statement.
pub proof fn lemma_let_statement_spans(src: Seq<u8>, w: Window)
    requires
        in_order(src, w),
    ensures
        onward(src, w, let_statement(src, w).window),
        let_statement(src, w).result matches Ok(parsed) ==> {
            &&& statement_spans_nest(parsed)
            &&& statement_drawn(src, parsed)
            &&& within(statement_span(parsed), stretch(w, let_statement(src, w).window))
        },
{
    lemma_advance_keeps_order(src, w);
    let named = advance(src, w);
    lemma_expect_peek_keeps_order(src, named, TokenKindView::Assign);
    lemma_skip_to_semicolon_keeps_order(
        src,
        expect_peek(src, named, TokenKindView::Assign).window,
    );
}

/// The spans of a `return` statement.
pub proof fn lemma_return_statement_spans(src: Seq<u8>, w: Window)
    requires
        in_order(src, w),
    ensures
        onward(src, w, return_statement(src, w).window),
        return_statement(src, w).result matches Ok(parsed) ==> {
            &&& statement_spans_nest(parsed)
            &&& statement_drawn(src, parsed)
            &&& within(statement_span(parsed), stretch(w, return_statement(src, w).window))
        },
{
    lemma_skip_to_semicolon_keeps_order(src, w);
}

/// The spans of an expression: they nest, and the expression lies between
/// the token at which it began and the token at which parsing stopped.
pub proof fn lemma_expression_spans(src: Seq<u8>, w: Window, precedence: Precedence)
    requires
        in_order(src, w),
    ensures
        onward(src, w, expression(src, w, precedence).window),
        expression(src, w, precedence).result matches Ok(parsed) ==> {
            &&& expression_spans_nest(parsed)
            &&& expression_drawn(src, parsed)
            &&& within(
                expression_span(parsed),
                stretch(w, expression(src, w, precedence).window),
            )
        },
    decreases remaining(src, w), 3nat,
{
    lemma_prefix_expression_spans(src, w);
    crate::parser::progress::lemma_prefix_expression_moves_forward(src, w);
    let head = prefix_expression(src, w);
    match head.result {
        Err(_) => {},
        Ok(left) => {
            lemma_climb_spans(src, head.window, left, w.current.span.start, precedence);
        },
    }
}

proof fn lemma_climb_spans(
    src: Seq<u8>,
    w: Window,
    left: ExpressionView,
    left_start: usize,
    precedence: Precedence,
)
    requires
        in_order(src, w),
        expression_spans_nest(left),
        expression_drawn(src, left),
        left_start <= w.current.span.end,
        within(expression_span(left), Span { start: left_start, end: w.current.span.end }),
    ensures
        onward(src, w, climb(src, w, left, left_start, precedence).window),
        climb(src, w, left, left_start, precedence).result matches Ok(parsed) ==> {
            &&& expression_spans_nest(parsed)
            &&& expression_drawn(src, parsed)
            &&& within(
                expression_span(parsed),
                Span {
                    start: left_start,
                    end: climb(src, w, left, left_start, precedence).window.current.span.end,
                },
            )
        },
    decreases remaining(src, w), 1nat,
{
    if !(w.peek.kind is SemiColon || !(precedence.rank() < precedence_of(w.peek.kind).rank())) {
        lemma_infix_expression_spans(src, w, left, left_start);
        crate::parser::progress::lemma_advance_twice_moves_forward(src, w);
        match infix_expression(src, w, left, left_start) {
            None => {},
            Some(joined) => match joined.result {
                Err(_) => {},
                Ok(wider) => {
                    lemma_climb_spans(src, joined.window, wider, left_start, precedence);
                },
            },
        }
    }
}

proof fn lemma_infix_expression_spans(
    src: Seq<u8>,
    w: Window,
    left: ExpressionView,
    left_start: usize,
)
    requires
        in_order(src, w),
        expression_spans_nest(left),
        expression_drawn(src, left),
        left_start <= w.current.span.end,
        within(expression_span(left), Span { start: left_start, end: w.current.span.end }),
    ensures
        infix_expression(src, w, left, left_start) matches Some(joined) ==> {
            &&& onward(src, w, joined.window)
            &&& remaining(src, joined.window) < remaining(src, w)
            &&& joined.result matches Ok(parsed) ==> {
                &&& expression_spans_nest(parsed)
                &&& expression_drawn(src, parsed)
                &&& expression_span(parsed) == Span {
                    start: left_start,
                    end: joined.window.current.span.end,
                }
            }
        },
    decreases remaining(src, w), 0nat,
{
    if infix_expression(src, w, left, left_start) is Some {
        lemma_advance(src, w);
        lemma_advance_keeps_order(src, w);
        let at_operator = advance(src, w);
        lemma_advance(src, at_operator);
        lemma_advance_keeps_order(src, at_operator);
        let operand_start = advance(src, at_operator);
        lemma_expression_spans(src, operand_start, precedence_of(at_operator.current.kind));
        crate::parser::progress::lemma_expression_moves_forward(
            src,
            operand_start,
            precedence_of(at_operator.current.kind),
        );
    }
}

pub proof fn lemma_prefix_expression_spans(src: Seq<u8>, w: Window)
    requires
        in_order(src, w),
    ensures
        onward(src, w, prefix_expression(src, w).window),
        prefix_expression(src, w).result matches Ok(parsed) ==> {
            &&& expression_spans_nest(parsed)
            &&& expression_drawn(src, parsed)
            &&& within(expression_span(parsed), stretch(w, prefix_expression(src, w).window))
        },
    decreases remaining(src, w), 2nat,
{
    lemma_advance(src, w);
    lemma_advance_keeps_order(src, w);
    match w.current.kind {
        TokenKindView::Bang | TokenKindView::Minus => {
            lemma_expression_spans(src, advance(src, w), Precedence::Prefix);
        },
        TokenKindView::LeftParen => {
            lemma_expression_spans(src, advance(src, w), Precedence::Lowset);
            let inner = expression(src, advance(src, w), Precedence::Lowset);
            lemma_expect_peek_keeps_order(src, inner.window, TokenKindView::RightParen);
        },
        TokenKindView::If => {
            lemma_if_expression_spans(src, w);
        },
        _ => {},
    }
}

pub proof fn lemma_condition_spans(src: Seq<u8>, w: Window)
    requires
        in_order(src, w),
    ensures
        onward(src, w, condition(src, w).window),
        condition(src, w).result matches Ok(parsed) ==> {
            &&& remaining(src, condition(src, w).window) < remaining(src, w)
            &&& expression_spans_nest(parsed)
            &&& expression_drawn(src, parsed)
            &&& within(expression_span(parsed), stretch(w, condition(src, w).window))
            &&& before(expression_span(parsed), condition(src, w).window.current.span)
        },
    decreases remaining(src, w), 0nat,
{
    lemma_advance(src, w);
    lemma_advance_keeps_order(src, w);
    crate::parser::progress::lemma_condition_moves_forward(src, w);
    let opened = expect_peek(src, w, TokenKindView::LeftParen);
    if opened.result is Ok {
        lemma_advance(src, opened.window);
        lemma_advance_keeps_order(src, opened.window);
        let inside = advance(src, opened.window);
        lemma_expression_spans(src, inside, Precedence::Lowset);
        let cond = expression(src, inside, Precedence::Lowset);
        lemma_expect_peek_keeps_order(src, cond.window, TokenKindView::RightParen);
        let closed = expect_peek(src, cond.window, TokenKindView::RightParen);
        lemma_expect_peek_keeps_order(src, closed.window, TokenKindView::LeftBrace);
    }
}

proof fn lemma_alternative_spans(src: Seq<u8>, origin: Window, w: Window)
    requires
        in_order(src, w),
        remaining(src, w) < remaining(src, origin),
    ensures
        onward(src, w, alternative(src, origin, w).window),
        alternative(src, origin, w).result matches Ok(Some(parsed)) ==> {
            &&& block_spans_nest(parsed)
            &&& statements_drawn(src, parsed.statements)
            &&& within(parsed.span, stretch(w, alternative(src, origin, w).window))
            &&& before(w.current.span, parsed.span)
        },
    decreases remaining(src, origin), 0nat,
{
    if w.peek.kind is Else {
        lemma_advance(src, w);
        lemma_advance_keeps_order(src, w);
        lemma_expect_peek_keeps_order(src, advance(src, w), TokenKindView::LeftBrace);
        crate::parser::progress::lemma_expect_peek_moves_forward(
            src,
            advance(src, w),
            TokenKindView::LeftBrace,
        );
        let braced = expect_peek(src, advance(src, w), TokenKindView::LeftBrace);
        if braced.result is Ok {
            lemma_block_spans(src, braced.window);
        }
    }
}

proof fn lemma_if_expression_spans(src: Seq<u8>, w: Window)
    requires
        in_order(src, w),
        w.current.kind is If,
    ensures
        onward(src, w, if_expression(src, w).window),
        if_expression(src, w).result matches Ok(parsed) ==> {
            &&& expression_spans_nest(parsed)
            &&& expression_drawn(src, parsed)
            &&& within(expression_span(parsed), stretch(w, if_expression(src, w).window))
        },
    decreases remaining(src, w), 1nat,
{
    lemma_condition_spans(src, w);
    let cond = condition(src, w);
    if cond.result is Ok {
        lemma_block_spans(src, cond.window);
        crate::parser::progress::lemma_block_moves_forward(src, cond.window);
        let consequence = block(src, cond.window);
        lemma_alternative_spans(src, w, consequence.window);
    }
}

/// The spans of a block: the block runs from its opening brace through
/// the token at which it ended, and holds its statements.
pub proof fn lemma_block_spans(src: Seq<u8>, w: Window)
    requires
        in_order(src, w),
    ensures
        onward(src, w, block(src, w).window),
        block_spans_nest(block(src, w).block),
        statements_drawn(src, block(src, w).block.statements),
        block(src, w).block.span == stretch(w, block(src, w).window),
    decreases remaining(src, w), 7nat,
{
    lemma_advance(src, w);
    lemma_advance_keeps_order(src, w);
    lemma_block_statements_spans(src, advance(src, w));
}

proof fn lemma_block_statements_spans(src: Seq<u8>, w: Window)
    requires
        in_order(src, w),
    ensures
        onward(src, w, block_statements(src, w).window),
        statements_span_within(
            block_statements(src, w).statements,
            stretch(w, block_statements(src, w).window),
        ),
        statements_in_order(block_statements(src, w).statements),
        statements_drawn(src, block_statements(src, w).statements),
    decreases remaining(src, w), 6nat,
{
    if !(w.current.kind is RightBrace || w.current.kind is Eof) {
        lemma_statement_spans(src, w);
        crate::parser::progress::lemma_statement_moves_forward(src, w);
        let first = statement(src, w);
        lemma_advance_keeps_order(src, first.window);
        let next = advance(src, first.window);
        lemma_block_statements_spans(src, next);
        let rest = block_statements(src, next);
        let whole = block_statements(src, w);
        let outer = stretch(w, whole.window);
        assert forall|i: int| 0 <= i < whole.statements.len() implies {
            &&& statement_spans_nest(#[trigger] whole.statements[i])
            &&& within(statement_span(whole.statements[i]), outer)
            &&& statement_drawn(src, whole.statements[i])
        } by {
            if first.result is Ok && i == 0 {
            } else {
                let k = if first.result is Ok { i - 1 } else { i };
                assert(whole.statements[i] == rest.statements[k]);
                assert(statement_spans_nest(rest.statements[k]));
                assert(statement_drawn(src, rest.statements[k]));
            }
        }
        assert forall|i: int, j: int| 0 <= i < j < whole.statements.len() implies before(
            statement_span(#[trigger] whole.statements[i]),
            statement_span(#[trigger] whole.statements[j]),
        ) by {
            let shift = if first.result is Ok { 1int } else { 0int };
            assert(whole.statements[j] == rest.statements[j - shift]);
            if first.result is Ok && i == 0 {
                assert(within(statement_span(rest.statements[j - shift]), stretch(next, rest.window)));
            } else {
                assert(whole.statements[i] == rest.statements[i - shift]);
            }
        }
    }
}

/// The spans of a statement.
pub proof fn lemma_statement_spans(src: Seq<u8>, w: Window)
    requires
        in_order(src, w),
    ensures
        onward(src, w, statement(src, w).window),
        statement(src, w).result matches Ok(parsed) ==> {
            &&& statement_spans_nest(parsed)
            &&& statement_drawn(src, parsed)
            &&& within(statement_span(parsed), stretch(w, statement(src, w).window))
        },
    decreases remaining(src, w), 5nat,
{
    match w.current.kind {
        TokenKindView::Let => {
            lemma_let_statement_spans(src, w);
        },
        TokenKindView::Return => {
            lemma_return_statement_spans(src, w);
        },
        _ => {
            lemma_expression_statement_spans(src, w);
        },
    }
}

proof fn lemma_expression_statement_spans(src: Seq<u8>, w: Window)
    requires
        in_order(src, w),
    ensures
        onward(src, w, expression_statement(src, w).window),
        expression_statement(src, w).result matches Ok(parsed) ==> {
            &&& statement_spans_nest(parsed)
            &&& statement_drawn(src, parsed)
            &&& within(statement_span(parsed), stretch(w, expression_statement(src, w).window))
        },
    decreases remaining(src, w), 4nat,
{
    lemma_expression_spans(src, w, Precedence::Lowset);
    lemma_advance_keeps_order(src, expression(src, w, Precedence::Lowset).window);
}

/// In every statement that parsing a source gives, each span begins no
/// later than it ends and holds the spans of the parts of its node, and
/// each token is drawn from the source.
pub proof fn lemma_program_spans(src: Seq<u8>, w: Window)
    requires
        in_order(src, w),
    ensures
        forall|i: int|
            0 <= i < program(src, w).statements.len() ==> statement_spans_nest(
                #[trigger] program(src, w).statements[i],
            ),
        statements_drawn(src, program(src, w).statements),
        statements_in_order(program(src, w).statements),
        forall|i: int|
            0 <= i < program(src, w).statements.len() ==> w.current.span.start <= statement_span(
                #[trigger] program(src, w).statements[i],
            ).start,
    decreases remaining(src, w),
{
    if !(w.current.kind is Eof) {
        lemma_statement_spans(src, w);
        crate::parser::progress::lemma_statement_moves_forward(src, w);
        let first = statement(src, w);
        lemma_advance_keeps_order(src, first.window);
        let next = advance(src, first.window);
        lemma_program_spans(src, next);
        let rest = program(src, next);
        let whole = program(src, w);
        assert forall|i: int| 0 <= i < whole.statements.len() implies statement_spans_nest(
            #[trigger] whole.statements[i],
        ) && statement_drawn(src, whole.statements[i]) by {
            if first.result is Ok && i == 0 {
            } else {
                let k = if first.result is Ok { i - 1 } else { i };
                assert(whole.statements[i] == rest.statements[k]);
                assert(statement_drawn(src, rest.statements[k]));
            }
        }
        assert forall|i: int| 0 <= i < whole.statements.len() implies w.current.span.start
            <= statement_span(#[trigger] whole.statements[i]).start by {
            if first.result is Ok && i == 0 {
            } else {
                let k = if first.result is Ok { i - 1 } else { i };
                assert(whole.statements[i] == rest.statements[k]);
            }
        }
        assert forall|i: int, j: int| 0 <= i < j < whole.statements.len() implies before(
            statement_span(#[trigger] whole.statements[i]),
            statement_span(#[trigger] whole.statements[j]),
        ) by {
            let shift = if first.result is Ok { 1int } else { 0int };
            assert(whole.statements[j] == rest.statements[j - shift]);
            if first.result is Ok && i == 0 {
            } else {
                assert(whole.statements[i] == rest.statements[i - shift]);
            }
        }
    }
}

} // verus!
