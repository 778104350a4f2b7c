//! The canonical text of a syntax tree: every prefix and infix expression
//! in parentheses, the statements of a block one after the other.

use vstd::prelude::*;
use crate::lexer::token::TokenKind;
use crate::parser::ast::{
    statements_view, BlockStatement, BlockView, Expression, ExpressionView, Ident, Literal, Node,
    Program, ProgramView, Statement, StatementView,
};
use crate::parser::inspect::{optional_debug, optional_debug_text};
use crate::text::{signed_decimal, signed_to_string};

verus! {

/// An expression is well formed where every `let` statement in its blocks
/// is. The canonical text is defined for well-formed trees.
pub open spec fn expression_well_formed(expression: ExpressionView) -> bool
    decreases expression, 0nat,
{
    match expression {
        ExpressionView::Identifier { .. } => true,
        ExpressionView::Integer { .. } => true,
        ExpressionView::Boolean { .. } => true,
        ExpressionView::Prefix { right, .. } => expression_well_formed(*right),
        ExpressionView::Infix { left, right, .. } => expression_well_formed(*left)
            && expression_well_formed(*right),
        ExpressionView::If { cond, consequence, alternative, .. } => {
            &&& expression_well_formed(*cond)
            &&& block_well_formed(consequence)
            &&& match alternative {
                Some(block) => block_well_formed(block),
                None => true,
            }
        },
    }
}

/// A `let` statement is well formed where it binds a token of kind
/// `Ident`. The value of a `let` or a `return` is not looked at: the
/// canonical text holds it as `{:?}` writes it.
pub open spec fn statement_well_formed(statement: StatementView) -> bool
    decreases statement, 0nat,
{
    match statement {
        StatementView::Let { identifier, .. } => identifier.kind is Ident,
        StatementView::Return { .. } => true,
        StatementView::Expression(expression) => expression_well_formed(expression),
    }
}

pub open spec fn statements_well_formed(statements: Seq<StatementView>) -> bool
    decreases statements, 0nat,
{
    forall|i: int|
        0 <= i < statements.len() ==> statement_well_formed(#[trigger] statements[i])
}

pub open spec fn block_well_formed(block: BlockView) -> bool
    decreases block, 0nat,
{
    statements_well_formed(block.statements)
}

impl ProgramView {
    pub open spec fn well_formed(self) -> bool {
        statements_well_formed(self.statements)
    }

    /// The text of a program: the text of its statements, one after the
    /// other, with nothing between them.
    pub open spec fn text(self) -> Seq<char> {
        render_statements(self.statements, self.statements.len())
    }
}

/// The text of an expression.
pub open spec fn render_expression(expression: ExpressionView) -> Seq<char>
    decreases expression, 0nat,
{
    match expression {
        ExpressionView::Identifier { name, .. } => name,
        ExpressionView::Integer { value, .. } => signed_decimal(value as int),
        ExpressionView::Boolean { value, .. } => if value {
            "true"@
        } else {
            "false"@
        },
        ExpressionView::Prefix { operator, right, .. } => "("@ + operator.kind.text()
            + render_expression(*right) + ")"@,
        ExpressionView::Infix { left, operator, right, .. } => "("@ + render_expression(*left)
            + " "@ + operator.kind.text() + " "@ + render_expression(*right) + ")"@,
        ExpressionView::If { cond, consequence, alternative, .. } => {
            let head = "if "@ + render_expression(*cond) + " { "@ + render_block(consequence)
                + " }"@;
            match alternative {
                Some(block) => head + " else { "@ + render_block(block) + " }"@,
                None => head,
            }
        },
    }
}

/// The text of a statement.
pub open spec fn render_statement(statement: StatementView) -> Seq<char>
    decreases statement, 0nat,
{
    match statement {
        StatementView::Let { identifier, exp, .. } => "let "@ + identifier.kind->name + " = "@
            + optional_debug(exp) + ";"@,
        StatementView::Return { exp, .. } => "return "@ + optional_debug(exp) + ";"@,
        StatementView::Expression(expression) => render_expression(expression),
    }
}

/// The text of the first `count` statements, one after the other.
pub open spec fn render_statements(statements: Seq<StatementView>, count: nat) -> Seq<char>
    decreases statements, count,
{
    if count == 0 || count > statements.len() {
        Seq::empty()
    } else {
        render_statements(statements, (count - 1) as nat) + render_statement(
            statements[count - 1],
        )
    }
}

/// The text of a block: the text of its statements, one after the other.
pub open spec fn render_block(block: BlockView) -> Seq<char>
    decreases block, 0nat,
{
    render_statements(block.statements, block.statements.len())
}

fn expression_text(expression: &Expression) -> (text: String)
    requires
        expression_well_formed(expression@),
    ensures
        text@ == render_expression(expression@),
    decreases expression,
{
    match expression {
        Expression::Identifier(ident) => ident.name.clone(),
        Expression::Literal(Literal::Integer(integer)) => signed_to_string(integer.value),
        Expression::Literal(Literal::Boolean(boolean)) => if boolean.value {
            "true".to_string()
        } else {
            "false".to_string()
        },
        Expression::Prefix(prefix) => {
            let mut text = "(".to_string();
            let operator = prefix.operator.kind.to_string();
            text.append(operator.as_str());
            let right = expression_text(&*prefix.right);
            text.append(right.as_str());
            text.append(")");
            text
        },
        Expression::Infix(infix) => {
            let mut text = "(".to_string();
            let left = expression_text(&*infix.left);
            text.append(left.as_str());
            text.append(" ");
            let operator = infix.operator.kind.to_string();
            text.append(operator.as_str());
            text.append(" ");
            let right = expression_text(&*infix.right);
            text.append(right.as_str());
            text.append(")");
            text
        },
        Expression::If(branch) => {
            let mut text = "if ".to_string();
            let cond = expression_text(&*branch.cond);
            text.append(cond.as_str());
            text.append(" { ");
            let consequence = block_text(&branch.consequence);
            text.append(consequence.as_str());
            text.append(" }");
            match &branch.alternative {
                Some(block) => {
                    text.append(" else { ");
                    let alternative = block_text(block);
                    text.append(alternative.as_str());
                    text.append(" }");
                },
                None => {},
            }
            text
        },
    }
}

fn statement_text(statement: &Statement) -> (text: String)
    requires
        statement_well_formed(statement@),
    ensures
        text@ == render_statement(statement@),
    decreases statement,
{
    match statement {
        Statement::Let(binding) => {
            let mut text = "let ".to_string();
            match &binding.identifier.kind {
                TokenKind::Ident { name } => {
                    text.append(name.as_str());
                },
                _ => {},
            }
            text.append(" = ");
            let exp = optional_debug_text(&binding.exp);
            text.append(exp.as_str());
            text.append(";");
            text
        },
        Statement::Return(ret) => {
            let mut text = "return ".to_string();
            let exp = optional_debug_text(&ret.exp);
            text.append(exp.as_str());
            text.append(";");
            text
        },
        Statement::Expression(expression) => expression_text(expression),
    }
}

fn statements_text(statements: &Vec<Statement>) -> (text: String)
    requires
        statements_well_formed(statements_view(statements@)),
    ensures
        text@ == render_statements(statements_view(statements@), statements@.len()),
    decreases statements,
{
    let mut text = String::new();
    let mut i: usize = 0;
    while i < statements.len()
        invariant
            i <= statements.len(),
            statements_well_formed(statements_view(statements@)),
            text@ == render_statements(statements_view(statements@), i as nat),
        decreases statements.len() - i,
    {
        assert(statements_view(statements@)[i as int] == statements@[i as int]@);
        let next = statement_text(&statements[i]);
        text.append(next.as_str());
        i += 1;
    }
    text
}

fn block_text(block: &BlockStatement) -> (text: String)
    requires
        block_well_formed(block@),
    ensures
        text@ == render_block(block@),
    decreases block,
{
    statements_text(&block.statements)
}

impl Ident {
    /// The name of the identifier.
    pub fn to_string(&self) -> (text: String)
        ensures
            text@ == self.name@,
    {
        self.name.clone()
    }
}

impl Literal {
    /// The numeral of an integer; `true` or `false` for a boolean.
    pub fn to_string(&self) -> (text: String)
        ensures
            text@ == render_expression(Expression::Literal(*self)@),
    {
        match self {
            Literal::Integer(integer) => signed_to_string(integer.value),
            Literal::Boolean(boolean) => if boolean.value {
                "true".to_string()
            } else {
                "false".to_string()
            },
        }
    }
}

impl Expression {
    /// The expression in canonical form: `(op right)` for a prefix
    /// expression, `(left op right)` for an infix expression,
    /// `if cond { .. }` with an optional ` else { .. }` for a conditional.
    pub fn to_string(&self) -> (text: String)
        requires
            expression_well_formed(self@),
        ensures
            text@ == render_expression(self@),
    {
        expression_text(self)
    }
}

impl Statement {
    /// The statement in canonical form.
    pub fn to_string(&self) -> (text: String)
        requires
            statement_well_formed(self@),
        ensures
            text@ == render_statement(self@),
    {
        statement_text(self)
    }
}

impl BlockStatement {
    /// The statements of the block in canonical form, one after the other.
    pub fn to_string(&self) -> (text: String)
        requires
            block_well_formed(self@),
        ensures
            text@ == render_block(self@),
    {
        block_text(self)
    }
}

impl Program {
    /// The statements of the program in canonical form, one after the
    /// other.
    pub fn to_string(&self) -> (text: String)
        requires
            self@.well_formed(),
        ensures
            text@ == self@.text(),
    {
        statements_text(&self.statements)
    }
}

impl Node {
    /// The text of a node of any sort.
    pub open spec fn text(self) -> Seq<char> {
        match self {
            Node::Program(program) => program@.text(),
            Node::Statement(statement) => render_statement(statement@),
            Node::Expression(expression) => render_expression(expression@),
        }
    }

    pub open spec fn well_formed(self) -> bool {
        match self {
            Node::Program(program) => program@.well_formed(),
            Node::Statement(statement) => statement_well_formed(statement@),
            Node::Expression(expression) => expression_well_formed(expression@),
        }
    }

    /// The node in canonical form.
    pub fn to_string(&self) -> (text: String)
        requires
            self.well_formed(),
        ensures
            text@ == self.text(),
    {
        match self {
            Node::Program(program) => program.to_string(),
            Node::Statement(statement) => statement.to_string(),
            Node::Expression(expression) => expression.to_string(),
        }
    }
}

} // verus!
