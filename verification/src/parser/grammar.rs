//! What the parser computes, stated over the bytes of the source and a
//! window of two tokens.
//!
//! Each function takes the window before a construct and gives what the
//! construct is, or the message that says why it is none, together with
//! the window after it.
//!
//! The definitions call each other, and each call must be seen to end. So
//! where a definition goes on from a window that another one handed back,
//! it first compares what remains to read there with what remained at its
//! own start, and stops where nothing was gained. From a window that the
//! tokenizer produced the comparison always succeeds: `progress` proves
//! it.

use vstd::prelude::*;
use crate::lexer::scan::{lemma_scanning_moves_forward, token_at};
use crate::lexer::token::{Span, TokenKindView, TokenView};
use crate::parser::ast::{BlockView, ExpressionView, StatementView};
use crate::parser::precedence::{precedence_of, Precedence};

verus! {

/// The parser's view of the source: the token it stands on, the token
/// after it, and the offset from which the tokenizer goes on.
pub struct Window {
    pub current: TokenView,
    pub peek: TokenView,
    pub pos: nat,
}

/// The window over the first two tokens that a tokenizer at `pos` gives.
pub open spec fn window_at(src: Seq<u8>, pos: nat) -> Window {
    let first = token_at(src, pos);
    let second = token_at(src, first.next);
    Window { current: first.token, peek: second.token, pos: second.next }
}

/// The window one token further on.
pub open spec fn advance(src: Seq<u8>, w: Window) -> Window {
    let scanned = token_at(src, w.pos);
    Window { current: w.peek, peek: scanned.token, pos: scanned.next }
}

/// How much is left to read: the tokens of the window that are not `Eof`
/// and the bytes that the tokenizer has not yet passed.
pub open spec fn remaining(src: Seq<u8>, w: Window) -> nat {
    let current: nat = if w.current.kind is Eof { 0 } else { 1 };
    let peek: nat = if w.peek.kind is Eof { 0 } else { 1 };
    let unread: nat = if w.pos < src.len() { (src.len() - w.pos) as nat } else { 0 };
    current + peek + unread
}

/// A window as the tokenizer produces it: after `Eof` comes `Eof`, and
/// `Eof` is in the window only once the source is used up.
pub open spec fn settled(src: Seq<u8>, w: Window) -> bool {
    &&& w.current.kind is Eof ==> w.peek.kind is Eof
    &&& w.peek.kind is Eof ==> w.pos >= src.len()
}

/// What parsing a construct gives: the construct or a message, and the
/// window after it.
pub struct Parsed<T> {
    pub result: Result<T, Seq<char>>,
    pub window: Window,
}

pub open spec fn parsed<T>(value: T, window: Window) -> Parsed<T> {
    Parsed { result: Ok(value), window }
}

pub open spec fn failed<T>(message: Seq<char>, window: Window) -> Parsed<T> {
    Parsed { result: Err(message), window }
}

/// The message for a token that is not the expected one.
pub open spec fn expectation_message(expected: TokenKindView, found: TokenKindView) -> Seq<char> {
    "Expected next token to be: "@ + expected.text() + " got: "@ + found.text()
}

/// Steps onto the peeked token where it has the kind `kind`; fails and
/// stays otherwise.
pub open spec fn expect_peek(src: Seq<u8>, w: Window, kind: TokenKindView) -> Parsed<()> {
    if w.peek.kind == kind {
        parsed((), advance(src, w))
    } else {
        failed(expectation_message(kind, w.peek.kind), w)
    }
}

/// The first window, from `w` on, that stands on a semicolon or on `Eof`.
pub open spec fn skip_to_semicolon(src: Seq<u8>, w: Window) -> Window
    decreases remaining(src, w),
    via skip_to_semicolon_ends
{
    if w.current.kind is SemiColon || w.current.kind is Eof {
        w
    } else {
        skip_to_semicolon(src, advance(src, w))
    }
}

#[via_fn]
proof fn skip_to_semicolon_ends(src: Seq<u8>, w: Window) {
    lemma_advance(src, w);
}

/// A `let` statement: `let`, an identifier, `=`, then everything up to the
/// next semicolon, which is passed over.
pub open spec fn let_statement(src: Seq<u8>, w: Window) -> Parsed<StatementView> {
    if !(w.current.kind is Let) {
        failed("Expected LET found: "@ + w.current.kind.text(), w)
    } else {
        let named = advance(src, w);
        if !(named.current.kind is Ident) {
            failed("Not an identifier "@ + named.current.kind.text(), named)
        } else {
            let assigned = expect_peek(src, named, TokenKindView::Assign);
            match assigned.result {
                Err(message) => failed(message, assigned.window),
                Ok(_) => {
                    let last = skip_to_semicolon(src, assigned.window);
                    parsed(
                        StatementView::Let {
                            identifier: named.current,
                            exp: None,
                            span: Span {
                                start: w.current.span.start,
                                end: last.current.span.end,
                            },
                        },
                        last,
                    )
                },
            }
        }
    }
}

/// A `return` statement: `return`, then everything up to the next
/// semicolon, which is passed over.
pub open spec fn return_statement(src: Seq<u8>, w: Window) -> Parsed<StatementView> {
    if !(w.current.kind is Return) {
        failed("Expected RETURN found: "@ + w.current.kind.text(), w)
    } else {
        let last = skip_to_semicolon(src, w);
        parsed(
            StatementView::Return {
                exp: None,
                span: Span { start: w.current.span.start, end: last.current.span.end },
            },
            last,
        )
    }
}

/// An expression that binds tighter than `precedence`: a head, then every
/// infix operator that binds tighter than `precedence` with its right-hand
/// side.
pub open spec fn expression(src: Seq<u8>, w: Window, precedence: Precedence) -> Parsed<
    ExpressionView,
>
    decreases remaining(src, w), 3nat,
{
    let head = prefix_expression(src, w);
    match head.result {
        Err(_) => head,
        Ok(left) => if remaining(src, head.window) <= remaining(src, w) {
            climb(src, head.window, left, w.current.span.start, precedence)
        } else {
            head
        },
    }
}

/// The kinds that stand between two operands.
pub open spec fn is_infix_operator(kind: TokenKindView) -> bool {
    kind is Eq || kind is NotEq || kind is LT || kind is GT || kind is Plus || kind is Minus
        || kind is Star || kind is Slash
}

/// The infix loop. While the peeked token is no semicolon and binds
/// tighter than `precedence`, it is taken as an operator between `left`
/// and the expression that follows; the result is the new `left`.
pub open spec fn climb(
    src: Seq<u8>,
    w: Window,
    left: ExpressionView,
    left_start: usize,
    precedence: Precedence,
) -> Parsed<ExpressionView>
    decreases remaining(src, w), 1nat,
{
    if w.peek.kind is SemiColon || !(precedence.rank() < precedence_of(w.peek.kind).rank()) {
        parsed(left, w)
    } else {
        match infix_expression(src, w, left, left_start) {
            None => parsed(left, w),
            Some(joined) => match joined.result {
                Err(_) => joined,
                Ok(wider) => if remaining(src, joined.window) < remaining(src, w) {
                    climb(src, joined.window, wider, left_start, precedence)
                } else {
                    joined
                },
            },
        }
    }
}

/// An infix expression with `left` as its left-hand side, where the
/// peeked token is an infix operator: the operator, then the right-hand
/// side, parsed at the operator's own precedence, so that operators of
/// the same precedence group to the left. Its span runs from `left_start`
/// through the end of the right-hand side.
pub open spec fn infix_expression(
    src: Seq<u8>,
    w: Window,
    left: ExpressionView,
    left_start: usize,
) -> Option<Parsed<ExpressionView>>
    decreases remaining(src, w), 0nat,
    via infix_expression_ends
{
    if !is_infix_operator(w.peek.kind) {
        None
    } else {
        let at_operator = advance(src, w);
        let operator = at_operator.current;
        let operand = expression(src, advance(src, at_operator), precedence_of(operator.kind));
        Some(
            match operand.result {
                Err(message) => failed(message, operand.window),
                Ok(right) => parsed(
                    ExpressionView::Infix {
                        left: Box::new(left),
                        operator,
                        right: Box::new(right),
                        span: Span { start: left_start, end: operand.window.current.span.end },
                    },
                    operand.window,
                ),
            },
        )
    }
}

#[via_fn]
proof fn infix_expression_ends(src: Seq<u8>, w: Window, left: ExpressionView, left_start: usize) {
    lemma_advance(src, w);
}

/// The head of an expression: an identifier, a literal, a prefix operator
/// with its operand, an expression in parentheses, or a conditional.
pub open spec fn prefix_expression(src: Seq<u8>, w: Window) -> Parsed<ExpressionView>
    decreases remaining(src, w), 2nat,
    via prefix_expression_ends
{
    let span = w.current.span;
    match w.current.kind {
        TokenKindView::Ident { name } => parsed(ExpressionView::Identifier { name, span }, w),
        TokenKindView::Int(value) => parsed(ExpressionView::Integer { value, span }, w),
        TokenKindView::True => parsed(ExpressionView::Boolean { value: true, span }, w),
        TokenKindView::False => parsed(ExpressionView::Boolean { value: false, span }, w),
        TokenKindView::Bang | TokenKindView::Minus => {
            let operand = expression(src, advance(src, w), Precedence::Prefix);
            match operand.result {
                Err(message) => failed(message, operand.window),
                Ok(right) => parsed(
                    ExpressionView::Prefix {
                        operator: w.current,
                        right: Box::new(right),
                        span: Span { start: span.start, end: operand.window.current.span.end },
                    },
                    operand.window,
                ),
            }
        },
        TokenKindView::LeftParen => {
            let inner = expression(src, advance(src, w), Precedence::Lowset);
            match inner.result {
                Err(message) => failed(message, inner.window),
                Ok(grouped) => {
                    let closed = expect_peek(src, inner.window, TokenKindView::RightParen);
                    match closed.result {
                        Err(message) => failed(message, closed.window),
                        Ok(_) => parsed(grouped, closed.window),
                    }
                },
            }
        },
        TokenKindView::If => if_expression(src, w),
        other => failed("no prefix parse rule for token "@ + other.text(), w),
    }
}

#[via_fn]
proof fn prefix_expression_ends(src: Seq<u8>, w: Window) {
    lemma_advance(src, w);
}

/// The start of a conditional: `if`, `(`, the condition, `)`, `{`. Gives
/// the condition and the window that stands on the opening brace.
pub open spec fn condition(src: Seq<u8>, w: Window) -> Parsed<ExpressionView>
    decreases remaining(src, w), 0nat,
    via condition_ends
{
    let opened = expect_peek(src, w, TokenKindView::LeftParen);
    match opened.result {
        Err(message) => failed(message, opened.window),
        Ok(_) => {
            let cond = expression(src, advance(src, opened.window), Precedence::Lowset);
            match cond.result {
                Err(message) => failed(message, cond.window),
                Ok(found) => {
                    let closed = expect_peek(src, cond.window, TokenKindView::RightParen);
                    match closed.result {
                        Err(message) => failed(message, closed.window),
                        Ok(_) => {
                            let braced = expect_peek(
                                src,
                                closed.window,
                                TokenKindView::LeftBrace,
                            );
                            match braced.result {
                                Err(message) => failed(message, braced.window),
                                Ok(_) => parsed(found, braced.window),
                            }
                        },
                    }
                },
            }
        },
    }
}

#[via_fn]
proof fn condition_ends(src: Seq<u8>, w: Window) {
    lemma_advance(src, w);
    lemma_advance(src, advance(src, w));
}

/// The `else` branch of a conditional, if the token after the consequence
/// is `else`: `else`, `{`, a block. `w` stands on the brace that closes
/// the consequence; `origin` is where the conditional began.
pub open spec fn alternative(src: Seq<u8>, origin: Window, w: Window) -> Parsed<Option<BlockView>>
    decreases remaining(src, origin), 0nat,
{
    if !(w.peek.kind is Else) {
        parsed(None, w)
    } else {
        let braced = expect_peek(src, advance(src, w), TokenKindView::LeftBrace);
        match braced.result {
            Err(message) => failed(message, braced.window),
            Ok(_) => if remaining(src, braced.window) < remaining(src, origin) {
                let body = block(src, braced.window);
                parsed(Some(body.block), body.window)
            } else {
                parsed(None, braced.window)
            },
        }
    }
}

/// A conditional: `if (cond) { consequence }`, with `else { alternative }`
/// where the token after the consequence is `else`. Its span runs from
/// `if` through the last closing brace.
pub open spec fn if_expression(src: Seq<u8>, w: Window) -> Parsed<ExpressionView>
    decreases remaining(src, w), 1nat,
{
    let cond = condition(src, w);
    match cond.result {
        Err(_) => cond,
        Ok(found) => if remaining(src, cond.window) < remaining(src, w) {
            let consequence = block(src, cond.window);
            let other = if remaining(src, consequence.window) < remaining(src, w) {
                alternative(src, w, consequence.window)
            } else {
                parsed(None, consequence.window)
            };
            match other.result {
                Err(message) => failed(message, other.window),
                Ok(branch) => parsed(
                    ExpressionView::If {
                        cond: Box::new(found),
                        consequence: consequence.block,
                        alternative: branch,
                        span: Span {
                            start: w.current.span.start,
                            end: other.window.current.span.end,
                        },
                    },
                    other.window,
                ),
            }
        } else {
            cond
        },
    }
}

/// A block and the window after it.
pub struct ParsedBlock {
    pub block: BlockView,
    pub window: Window,
}

/// A block: `w` stands on its opening brace; statements follow until the
/// window stands on a closing brace or on `Eof`. Statements that fail to
/// parse are left out.
pub open spec fn block(src: Seq<u8>, w: Window) -> ParsedBlock
    decreases remaining(src, w), 7nat,
    via block_ends
{
    let body = block_statements(src, advance(src, w));
    ParsedBlock {
        block: BlockView {
            statements: body.statements,
            span: Span { start: w.current.span.start, end: body.window.current.span.end },
        },
        window: body.window,
    }
}

#[via_fn]
proof fn block_ends(src: Seq<u8>, w: Window) {
    lemma_advance(src, w);
}

/// The statements of a block and the window after them.
pub struct ParsedStatements {
    pub statements: Seq<StatementView>,
    pub window: Window,
}

/// The statements from `w` up to a closing brace or `Eof`. After each
/// statement, parsed or not, the window moves on by one token.
pub open spec fn block_statements(src: Seq<u8>, w: Window) -> ParsedStatements
    decreases remaining(src, w), 6nat,
{
    if w.current.kind is RightBrace || w.current.kind is Eof {
        ParsedStatements { statements: Seq::empty(), window: w }
    } else {
        let first = statement(src, w);
        let next = advance(src, first.window);
        let found = match first.result {
            Ok(parsed) => seq![parsed],
            Err(_) => Seq::empty(),
        };
        if remaining(src, next) < remaining(src, w) {
            let rest = block_statements(src, next);
            ParsedStatements { statements: found + rest.statements, window: rest.window }
        } else {
            ParsedStatements { statements: found, window: next }
        }
    }
}

/// A statement: a `let` statement where the window stands on `let`, a
/// `return` statement where it stands on `return`, an expression statement
/// everywhere else.
pub open spec fn statement(src: Seq<u8>, w: Window) -> Parsed<StatementView>
    decreases remaining(src, w), 5nat,
{
    match w.current.kind {
        TokenKindView::Let => let_statement(src, w),
        TokenKindView::Return => return_statement(src, w),
        _ => expression_statement(src, w),
    }
}

/// An expression statement: an expression, and the semicolon after it
/// where there is one.
pub open spec fn expression_statement(src: Seq<u8>, w: Window) -> Parsed<StatementView>
    decreases remaining(src, w), 4nat,
{
    let parsed_expression = expression(src, w, Precedence::Lowset);
    match parsed_expression.result {
        Err(message) => failed(message, parsed_expression.window),
        Ok(found) => parsed(
            StatementView::Expression(found),
            if parsed_expression.window.peek.kind is SemiColon {
                advance(src, parsed_expression.window)
            } else {
                parsed_expression.window
            },
        ),
    }
}

/// What parsing a whole source gives: the statements that parsed, the
/// messages for those that did not, and the window at the end.
pub struct Run {
    pub statements: Seq<StatementView>,
    pub errors: Seq<Seq<char>>,
    pub window: Window,
}

/// The statements from `w` up to `Eof`. After each statement, parsed or
/// not, the window moves on by one token.
pub open spec fn program(src: Seq<u8>, w: Window) -> Run
    decreases remaining(src, w),
{
    if w.current.kind is Eof {
        Run { statements: Seq::empty(), errors: Seq::empty(), window: w }
    } else {
        let first = statement(src, w);
        let next = advance(src, first.window);
        let found = match first.result {
            Ok(parsed) => seq![parsed],
            Err(_) => Seq::empty(),
        };
        let refused = match first.result {
            Ok(_) => Seq::empty(),
            Err(message) => seq![message],
        };
        if remaining(src, next) < remaining(src, w) {
            let rest = program(src, next);
            Run {
                statements: found + rest.statements,
                errors: refused + rest.errors,
                window: rest.window,
            }
        } else {
            Run { statements: found, errors: refused, window: next }
        }
    }
}

/// Moving on by one token leaves no more to read than before, and less
/// where the window did not stand on `Eof`. Moving on by two leaves less
/// where the peeked token was not `Eof`. A settled window stays settled.
pub proof fn lemma_advance(src: Seq<u8>, w: Window)
    ensures
        remaining(src, advance(src, w)) <= remaining(src, w),
        !(w.current.kind is Eof) ==> remaining(src, advance(src, w)) < remaining(src, w),
        !(w.peek.kind is Eof) ==> remaining(src, advance(src, advance(src, w))) < remaining(
            src,
            w,
        ),
        settled(src, w) ==> settled(src, advance(src, w)),
{
    lemma_scanning_moves_forward(src, w.pos);
    lemma_scanning_moves_forward(src, token_at(src, w.pos).next);
    crate::lexer::scan::lemma_skip_spaces(src, w.pos);
}

/// The window over the first two tokens is settled.
pub proof fn lemma_window_at_is_settled(src: Seq<u8>, pos: nat)
    ensures
        settled(src, window_at(src, pos)),
{
    lemma_scanning_moves_forward(src, pos);
    lemma_scanning_moves_forward(src, token_at(src, pos).next);
    crate::lexer::scan::lemma_skip_spaces(src, token_at(src, pos).next);
}

} // verus!
