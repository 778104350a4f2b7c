//! The text of a tree as `{:?}` writes it: every node by the name of its
//! type, with its fields by name.

use vstd::prelude::*;
use crate::lexer::token::{Span, Token, TokenKind, TokenKindView, TokenView};
use crate::parser::ast::{
    optional_expression_view, statements_view, BlockStatement, BlockView, Expression,
    ExpressionView, Literal, Statement, StatementView,
};
use crate::text::{decimal, signed_decimal, signed_to_string, unsigned_to_string};

verus! {

/// The text that `{:?}` gives for a string: the string between double
/// quotes, with the characters that cannot stand there escaped.
pub uninterp spec fn quoted(text: Seq<char>) -> Seq<char>;

/// Formats a string with `{:?}`.
///
/// Calls `format!`, that is `<str as std::fmt::Debug>::fmt`. Nothing is
/// claimed of the text but that it is the same for the same string.
#[verifier::external_body]
fn debug_quote(text: &str) -> (shown: String)
    ensures
        shown@ == quoted(text@),
{
    format!("{:?}", text)
}

pub open spec fn span_debug(span: Span) -> Seq<char> {
    "Span { start: "@ + decimal(span.start as nat) + ", end: "@ + decimal(span.end as nat)
        + " }"@
}

pub open spec fn kind_debug(kind: TokenKindView) -> Seq<char> {
    match kind {
        TokenKindView::Eof => "Eof"@,
        TokenKindView::Illegal => "Illegal"@,
        TokenKindView::Ident { name } => "Ident { name: "@ + quoted(name) + " }"@,
        TokenKindView::Int(value) => "Int("@ + signed_decimal(value as int) + ")"@,
        TokenKindView::String(text) => "String("@ + quoted(text) + ")"@,
        TokenKindView::Assign => "Assign"@,
        TokenKindView::Plus => "Plus"@,
        TokenKindView::Bang => "Bang"@,
        TokenKindView::Minus => "Minus"@,
        TokenKindView::Slash => "Slash"@,
        TokenKindView::Star => "Star"@,
        TokenKindView::LT => "LT"@,
        TokenKindView::GT => "GT"@,
        TokenKindView::Eq => "Eq"@,
        TokenKindView::NotEq => "NotEq"@,
        TokenKindView::LeftParen => "LeftParen"@,
        TokenKindView::RightParen => "RightParen"@,
        TokenKindView::LeftBrace => "LeftBrace"@,
        TokenKindView::RightBrace => "RightBrace"@,
        TokenKindView::Comma => "Comma"@,
        TokenKindView::SemiColon => "SemiColon"@,
        TokenKindView::Let => "Let"@,
        TokenKindView::Fn => "Fn"@,
        TokenKindView::True => "True"@,
        TokenKindView::False => "False"@,
        TokenKindView::If => "If"@,
        TokenKindView::Else => "Else"@,
        TokenKindView::Return => "Return"@,
    }
}

pub open spec fn token_debug(token: TokenView) -> Seq<char> {
    "Token { kind: "@ + kind_debug(token.kind) + ", span: "@ + span_debug(token.span) + " }"@
}

pub open spec fn expression_debug(expression: ExpressionView) -> Seq<char>
    decreases expression, 0nat,
{
    match expression {
        ExpressionView::Identifier { name, span } => "Identifier(Ident { name: "@ + quoted(name)
            + ", span: "@ + span_debug(span) + " })"@,
        ExpressionView::Integer { value, span } => "Literal(Integer(Integer { value: "@
            + signed_decimal(value as int) + ", span: "@ + span_debug(span) + " }))"@,
        ExpressionView::Boolean { value, span } => "Literal(Boolean(Boolean { value: "@ + (if value {
            "true"@
        } else {
            "false"@
        }) + ", span: "@ + span_debug(span) + " }))"@,
        ExpressionView::Prefix { operator, right, span } => "Prefix(PrefixExp { operator: "@
            + token_debug(operator) + ", right: "@ + expression_debug(*right) + ", span: "@
            + span_debug(span) + " })"@,
        ExpressionView::Infix { left, operator, right, span } => "Infix(InfixExp { left: "@
            + expression_debug(*left) + ", operator: "@ + token_debug(operator) + ", right: "@
            + expression_debug(*right) + ", span: "@ + span_debug(span) + " })"@,
        ExpressionView::If { cond, consequence, alternative, span } => "If(IfExp { cond: "@
            + expression_debug(*cond) + ", consequence: "@ + block_debug(consequence)
            + ", alternative: "@ + (match alternative {
            Some(other) => "Some("@ + block_debug(other) + ")"@,
            None => "None"@,
        }) + ", span: "@ + span_debug(span) + " })"@,
    }
}

pub open spec fn optional_debug(exp: Option<ExpressionView>) -> Seq<char>
    decreases exp, 0nat,
{
    match exp {
        Some(expression) => "Some("@ + expression_debug(expression) + ")"@,
        None => "None"@,
    }
}

pub open spec fn statement_debug(statement: StatementView) -> Seq<char>
    decreases statement, 0nat,
{
    match statement {
        StatementView::Let { identifier, exp, span } => "Let(Let { identifier: "@ + token_debug(
            identifier,
        ) + ", exp: "@ + optional_debug(exp) + ", span: "@ + span_debug(span) + " })"@,
        StatementView::Return { exp, span } => "Return(Return { exp: "@ + optional_debug(exp)
            + ", span: "@ + span_debug(span) + " })"@,
        StatementView::Expression(expression) => "Expression("@ + expression_debug(expression)
            + ")"@,
    }
}

/// The first `count` statements, with `, ` between them.
pub open spec fn statements_debug(statements: Seq<StatementView>, count: nat) -> Seq<char>
    decreases statements, count,
{
    if count == 0 || count > statements.len() {
        Seq::empty()
    } else if count == 1 {
        statement_debug(statements[0])
    } else {
        statements_debug(statements, (count - 1) as nat) + ", "@ + statement_debug(
            statements[count - 1],
        )
    }
}

pub open spec fn block_debug(block: BlockView) -> Seq<char>
    decreases block, 0nat,
{
    "BlockStatement { statements: ["@ + statements_debug(
        block.statements,
        block.statements.len(),
    ) + "], span: "@ + span_debug(block.span) + " }"@
}

fn span_debug_text(span: &Span) -> (text: String)
    ensures
        text@ == span_debug(*span),
{
    let mut text = "Span { start: ".to_string();
    let start = unsigned_to_string(span.start);
    text.append(start.as_str());
    text.append(", end: ");
    let end = unsigned_to_string(span.end);
    text.append(end.as_str());
    text.append(" }");
    text
}

fn kind_debug_text(kind: &TokenKind) -> (text: String)
    ensures
        text@ == kind_debug(kind@),
{
    match kind {
        TokenKind::Eof => "Eof".to_string(),
        TokenKind::Illegal => "Illegal".to_string(),
        TokenKind::Ident { name } => {
            let mut text = "Ident { name: ".to_string();
            let shown = debug_quote(name.as_str());
            text.append(shown.as_str());
            text.append(" }");
            text
        },
        TokenKind::Int(value) => {
            let mut text = "Int(".to_string();
            let shown = signed_to_string(*value);
            text.append(shown.as_str());
            text.append(")");
            text
        },
        TokenKind::String(held) => {
            let mut text = "String(".to_string();
            let shown = debug_quote(held.as_str());
            text.append(shown.as_str());
            text.append(")");
            text
        },
        TokenKind::Assign => "Assign".to_string(),
        TokenKind::Plus => "Plus".to_string(),
        TokenKind::Bang => "Bang".to_string(),
        TokenKind::Minus => "Minus".to_string(),
        TokenKind::Slash => "Slash".to_string(),
        TokenKind::Star => "Star".to_string(),
        TokenKind::LT => "LT".to_string(),
        TokenKind::GT => "GT".to_string(),
        TokenKind::Eq => "Eq".to_string(),
        TokenKind::NotEq => "NotEq".to_string(),
        TokenKind::LeftParen => "LeftParen".to_string(),
        TokenKind::RightParen => "RightParen".to_string(),
        TokenKind::LeftBrace => "LeftBrace".to_string(),
        TokenKind::RightBrace => "RightBrace".to_string(),
        TokenKind::Comma => "Comma".to_string(),
        TokenKind::SemiColon => "SemiColon".to_string(),
        TokenKind::Let => "Let".to_string(),
        TokenKind::Fn => "Fn".to_string(),
        TokenKind::True => "True".to_string(),
        TokenKind::False => "False".to_string(),
        TokenKind::If => "If".to_string(),
        TokenKind::Else => "Else".to_string(),
        TokenKind::Return => "Return".to_string(),
    }
}

fn token_debug_text(token: &Token) -> (text: String)
    ensures
        text@ == token_debug(token@),
{
    let mut text = "Token { kind: ".to_string();
    let kind = kind_debug_text(&token.kind);
    text.append(kind.as_str());
    text.append(", span: ");
    let span = span_debug_text(&token.span);
    text.append(span.as_str());
    text.append(" }");
    text
}

fn expression_debug_text(expression: &Expression) -> (text: String)
    ensures
        text@ == expression_debug(expression@),
    decreases expression,
{
    match expression {
        Expression::Identifier(ident) => {
            let mut text = "Identifier(Ident { name: ".to_string();
            let name = debug_quote(ident.name.as_str());
            text.append(name.as_str());
            text.append(", span: ");
            let span = span_debug_text(&ident.span);
            text.append(span.as_str());
            text.append(" })");
            text
        },
        Expression::Literal(Literal::Integer(integer)) => {
            let mut text = "Literal(Integer(Integer { value: ".to_string();
            let value = signed_to_string(integer.value);
            text.append(value.as_str());
            text.append(", span: ");
            let span = span_debug_text(&integer.span);
            text.append(span.as_str());
            text.append(" }))");
            text
        },
        Expression::Literal(Literal::Boolean(boolean)) => {
            let mut text = "Literal(Boolean(Boolean { value: ".to_string();
            if boolean.value {
                text.append("true");
            } else {
                text.append("false");
            }
            text.append(", span: ");
            let span = span_debug_text(&boolean.span);
            text.append(span.as_str());
            text.append(" }))");
            text
        },
        Expression::Prefix(prefix) => {
            let mut text = "Prefix(PrefixExp { operator: ".to_string();
            let operator = token_debug_text(&prefix.operator);
            text.append(operator.as_str());
            text.append(", right: ");
            let right = expression_debug_text(&*prefix.right);
            text.append(right.as_str());
            text.append(", span: ");
            let span = span_debug_text(&prefix.span);
            text.append(span.as_str());
            text.append(" })");
            text
        },
        Expression::Infix(infix) => {
            let mut text = "Infix(InfixExp { left: ".to_string();
            let left = expression_debug_text(&*infix.left);
            text.append(left.as_str());
            text.append(", operator: ");
            let operator = token_debug_text(&infix.operator);
            text.append(operator.as_str());
            text.append(", right: ");
            let right = expression_debug_text(&*infix.right);
            text.append(right.as_str());
            text.append(", span: ");
            let span = span_debug_text(&infix.span);
            text.append(span.as_str());
            text.append(" })");
            text
        },
        Expression::If(branch) => {
            let mut text = "If(IfExp { cond: ".to_string();
            let cond = expression_debug_text(&*branch.cond);
            text.append(cond.as_str());
            text.append(", consequence: ");
            let consequence = block_debug_text(&branch.consequence);
            text.append(consequence.as_str());
            text.append(", alternative: ");
            match &branch.alternative {
                Some(other) => {
                    text.append("Some(");
                    let alternative = block_debug_text(other);
                    text.append(alternative.as_str());
                    text.append(")");
                },
                None => {
                    text.append("None");
                },
            }
            text.append(", span: ");
            let span = span_debug_text(&branch.span);
            text.append(span.as_str());
            text.append(" })");
            text
        },
    }
}

/// The value of a `let` or a `return` as `{:?}` writes it.
pub(crate) fn optional_debug_text(exp: &Option<Expression>) -> (text: String)
    ensures
        text@ == optional_debug(optional_expression_view(*exp)),
    decreases exp,
{
    match exp {
        Some(expression) => {
            let mut text = "Some(".to_string();
            let inner = expression_debug_text(expression);
            text.append(inner.as_str());
            text.append(")");
            text
        },
        None => "None".to_string(),
    }
}

fn statement_debug_text(statement: &Statement) -> (text: String)
    ensures
        text@ == statement_debug(statement@),
    decreases statement,
{
    match statement {
        Statement::Let(binding) => {
            let mut text = "Let(Let { identifier: ".to_string();
            let identifier = token_debug_text(&binding.identifier);
            text.append(identifier.as_str());
            text.append(", exp: ");
            let exp = optional_debug_text(&binding.exp);
            text.append(exp.as_str());
            text.append(", span: ");
            let span = span_debug_text(&binding.span);
            text.append(span.as_str());
            text.append(" })");
            text
        },
        Statement::Return(ret) => {
            let mut text = "Return(Return { exp: ".to_string();
            let exp = optional_debug_text(&ret.exp);
            text.append(exp.as_str());
            text.append(", span: ");
            let span = span_debug_text(&ret.span);
            text.append(span.as_str());
            text.append(" })");
            text
        },
        Statement::Expression(expression) => {
            let mut text = "Expression(".to_string();
            let inner = expression_debug_text(expression);
            text.append(inner.as_str());
            text.append(")");
            text
        },
    }
}

fn statements_debug_text(statements: &Vec<Statement>) -> (text: String)
    ensures
        text@ == statements_debug(statements_view(statements@), statements@.len()),
    decreases statements,
{
    let mut text = String::new();
    let mut i: usize = 0;
    while i < statements.len()
        invariant
            i <= statements.len(),
            text@ == statements_debug(statements_view(statements@), i as nat),
        decreases statements.len() - i,
    {
        assert(statements_view(statements@)[i as int] == statements@[i as int]@);
        if i > 0 {
            text.append(", ");
        }
        let next = statement_debug_text(&statements[i]);
        text.append(next.as_str());
        i += 1;
    }
    text
}

fn block_debug_text(block: &BlockStatement) -> (text: String)
    ensures
        text@ == block_debug(block@),
    decreases block,
{
    let mut text = "BlockStatement { statements: [".to_string();
    let statements = statements_debug_text(&block.statements);
    text.append(statements.as_str());
    text.append("], span: ");
    let span = span_debug_text(&block.span);
    text.append(span.as_str());
    text.append(" }");
    text
}

} // verus!
