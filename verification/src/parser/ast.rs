//! The syntax tree and its canonical, fully parenthesized text.

use vstd::prelude::*;
use crate::lexer::token::{Span, Token, TokenView};

verus! {

/// A node of any sort.
pub enum Node {
    Program(Program),
    Statement(Statement),
    Expression(Expression),
}

/// The root of a tree: the statements of a source, in its order.
#[derive(Clone, Debug, PartialEq)]
pub struct Program {
    pub statements: Vec<Statement>,
}

#[derive(Debug, PartialEq)]
pub enum Statement {
    Let(Let),
    Return(Return),
    Expression(Expression),
}

/// A `let` statement. Its `identifier` is a token of kind `Ident`.
#[derive(Clone, Debug, PartialEq)]
pub struct Let {
    pub identifier: Token,
    pub exp: Option<Expression>,
    pub span: Span,
}

#[derive(Clone, Debug, PartialEq)]
pub struct Return {
    pub exp: Option<Expression>,
    pub span: Span,
}

#[derive(Debug, PartialEq)]
pub enum Expression {
    Identifier(Ident),
    Literal(Literal),
    Prefix(PrefixExp),
    Infix(InfixExp),
    If(IfExp),
}

#[derive(Clone, Debug, PartialEq)]
pub struct Ident {
    pub name: String,
    pub span: Span,
}

#[derive(Clone, Debug, PartialEq)]
pub enum Literal {
    Integer(Integer),
    Boolean(Boolean),
}

#[derive(Clone, Debug, PartialEq)]
pub struct Integer {
    pub value: i64,
    pub span: Span,
}

#[derive(Clone, Debug, PartialEq)]
pub struct Boolean {
    pub value: bool,
    pub span: Span,
}

#[derive(Clone, Debug, PartialEq)]
pub struct PrefixExp {
    pub operator: Token,
    pub right: Box<Expression>,
    pub span: Span,
}

#[derive(Clone, Debug, PartialEq)]
pub struct InfixExp {
    pub left: Box<Expression>,
    pub operator: Token,
    pub right: Box<Expression>,
    pub span: Span,
}

/// A conditional. The `alternative` is there where the source has an
/// `else`.
#[derive(Clone, Debug, PartialEq)]
pub struct IfExp {
    pub cond: Box<Expression>,
    pub consequence: BlockStatement,
    pub alternative: Option<BlockStatement>,
    pub span: Span,
}

/// The statements between two braces, in their order.
#[derive(Debug, PartialEq)]
pub struct BlockStatement {
    pub statements: Vec<Statement>,
    pub span: Span,
}

/// The mathematical value of an `Expression`.
pub enum ExpressionView {
    Identifier { name: Seq<char>, span: Span },
    Integer { value: i64, span: Span },
    Boolean { value: bool, span: Span },
    Prefix { operator: TokenView, right: Box<ExpressionView>, span: Span },
    Infix {
        left: Box<ExpressionView>,
        operator: TokenView,
        right: Box<ExpressionView>,
        span: Span,
    },
    If {
        cond: Box<ExpressionView>,
        consequence: BlockView,
        alternative: Option<BlockView>,
        span: Span,
    },
}

/// The mathematical value of a `Statement`.
pub enum StatementView {
    Let { identifier: TokenView, exp: Option<ExpressionView>, span: Span },
    Return { exp: Option<ExpressionView>, span: Span },
    Expression(ExpressionView),
}

/// The mathematical value of a `BlockStatement`.
pub struct BlockView {
    pub statements: Seq<StatementView>,
    pub span: Span,
}

/// The mathematical value of a `Program`.
pub struct ProgramView {
    pub statements: Seq<StatementView>,
}

pub open spec fn expression_view(expression: Expression) -> ExpressionView
    decreases expression,
{
    match expression {
        Expression::Identifier(ident) => ExpressionView::Identifier {
            name: ident.name@,
            span: ident.span,
        },
        Expression::Literal(Literal::Integer(integer)) => ExpressionView::Integer {
            value: integer.value,
            span: integer.span,
        },
        Expression::Literal(Literal::Boolean(boolean)) => ExpressionView::Boolean {
            value: boolean.value,
            span: boolean.span,
        },
        Expression::Prefix(prefix) => ExpressionView::Prefix {
            operator: prefix.operator@,
            right: Box::new(expression_view(*prefix.right)),
            span: prefix.span,
        },
        Expression::Infix(infix) => ExpressionView::Infix {
            left: Box::new(expression_view(*infix.left)),
            operator: infix.operator@,
            right: Box::new(expression_view(*infix.right)),
            span: infix.span,
        },
        Expression::If(branch) => ExpressionView::If {
            cond: Box::new(expression_view(*branch.cond)),
            consequence: block_view(branch.consequence),
            alternative: match branch.alternative {
                Some(block) => Some(block_view(block)),
                None => None,
            },
            span: branch.span,
        },
    }
}

pub open spec fn optional_expression_view(exp: Option<Expression>) -> Option<ExpressionView>
    decreases exp,
{
    match exp {
        Some(expression) => Some(expression_view(expression)),
        None => None,
    }
}

pub open spec fn statement_view(statement: Statement) -> StatementView
    decreases statement,
{
    match statement {
        Statement::Let(binding) => StatementView::Let {
            identifier: binding.identifier@,
            exp: optional_expression_view(binding.exp),
            span: binding.span,
        },
        Statement::Return(ret) => StatementView::Return {
            exp: optional_expression_view(ret.exp),
            span: ret.span,
        },
        Statement::Expression(expression) => StatementView::Expression(
            expression_view(expression),
        ),
    }
}

pub open spec fn statements_view(statements: Seq<Statement>) -> Seq<StatementView>
    decreases statements,
{
    Seq::new(
        statements.len(),
        |i: int|
            if 0 <= i < statements.len() {
                statement_view(statements[i])
            } else {
                arbitrary()
            },
    )
}

pub open spec fn block_view(block: BlockStatement) -> BlockView
    decreases block,
{
    BlockView { statements: statements_view(block.statements@), span: block.span }
}

impl View for Expression {
    type V = ExpressionView;

    open spec fn view(&self) -> ExpressionView {
        expression_view(*self)
    }
}

impl View for Statement {
    type V = StatementView;

    open spec fn view(&self) -> StatementView {
        statement_view(*self)
    }
}

impl View for BlockStatement {
    type V = BlockView;

    open spec fn view(&self) -> BlockView {
        block_view(*self)
    }
}

impl View for Program {
    type V = ProgramView;

    open spec fn view(&self) -> ProgramView {
        ProgramView { statements: statements_view(self.statements@) }
    }
}

fn copy_expression(expression: &Expression) -> (copy: Expression)
    ensures
        copy@ == expression@,
    decreases expression,
{
    match expression {
        Expression::Identifier(ident) => Expression::Identifier(
            Ident { name: ident.name.clone(), span: ident.span },
        ),
        Expression::Literal(Literal::Integer(integer)) => Expression::Literal(
            Literal::Integer(Integer { value: integer.value, span: integer.span }),
        ),
        Expression::Literal(Literal::Boolean(boolean)) => Expression::Literal(
            Literal::Boolean(Boolean { value: boolean.value, span: boolean.span }),
        ),
        Expression::Prefix(prefix) => Expression::Prefix(
            PrefixExp {
                operator: prefix.operator.clone(),
                right: Box::new(copy_expression(&*prefix.right)),
                span: prefix.span,
            },
        ),
        Expression::Infix(infix) => Expression::Infix(
            InfixExp {
                left: Box::new(copy_expression(&*infix.left)),
                operator: infix.operator.clone(),
                right: Box::new(copy_expression(&*infix.right)),
                span: infix.span,
            },
        ),
        Expression::If(branch) => Expression::If(
            IfExp {
                cond: Box::new(copy_expression(&*branch.cond)),
                consequence: copy_block(&branch.consequence),
                alternative: match &branch.alternative {
                    Some(block) => Some(copy_block(block)),
                    None => None,
                },
                span: branch.span,
            },
        ),
    }
}

fn copy_optional_expression(exp: &Option<Expression>) -> (copy: Option<Expression>)
    ensures
        optional_expression_view(copy) == optional_expression_view(*exp),
    decreases exp,
{
    match exp {
        Some(expression) => Some(copy_expression(expression)),
        None => None,
    }
}

fn copy_statement(statement: &Statement) -> (copy: Statement)
    ensures
        copy@ == statement@,
    decreases statement,
{
    match statement {
        Statement::Let(binding) => Statement::Let(
            Let {
                identifier: binding.identifier.clone(),
                exp: copy_optional_expression(&binding.exp),
                span: binding.span,
            },
        ),
        Statement::Return(ret) => Statement::Return(
            Return { exp: copy_optional_expression(&ret.exp), span: ret.span },
        ),
        Statement::Expression(expression) => Statement::Expression(copy_expression(expression)),
    }
}

fn copy_statements(statements: &Vec<Statement>) -> (copy: Vec<Statement>)
    ensures
        statements_view(copy@) == statements_view(statements@),
    decreases statements,
{
    let mut copy: Vec<Statement> = Vec::new();
    let mut i: usize = 0;
    while i < statements.len()
        invariant
            i <= statements.len(),
            copy@.len() == i,
            forall|k: int| 0 <= k < i ==> (#[trigger] copy@[k])@ == statements@[k]@,
        decreases statements.len() - i,
    {
        copy.push(copy_statement(&statements[i]));
        i += 1;
    }
    assert(statements_view(copy@) =~= statements_view(statements@));
    copy
}

fn copy_block(block: &BlockStatement) -> (copy: BlockStatement)
    ensures
        copy@ == block@,
    decreases block,
{
    BlockStatement { statements: copy_statements(&block.statements), span: block.span }
}

impl Program {
    /// A program without statements.
    pub fn new() -> (program: Program)
        ensures
            program@.statements == Seq::<StatementView>::empty(),
    {
        let program = Program { statements: Vec::new() };
        assert(program@.statements =~= Seq::<StatementView>::empty());
        program
    }
}

impl Clone for Expression {
    fn clone(&self) -> (copy: Expression)
        ensures
            copy@ == self@,
    {
        copy_expression(self)
    }
}

impl Clone for Statement {
    fn clone(&self) -> (copy: Statement)
        ensures
            copy@ == self@,
    {
        copy_statement(self)
    }
}

impl Clone for BlockStatement {
    fn clone(&self) -> (copy: BlockStatement)
        ensures
            copy@ == self@,
    {
        copy_block(self)
    }
}

} // verus!
