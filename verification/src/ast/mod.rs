//! Syntax tree of the expression language, and the contract of the walkers
//! that consume it.
//!
//! A program is an ordered sequence of statements; a statement wraps one
//! expression; an expression owns its operands. The tree is built by the
//! parser and only read afterwards.
use vstd::prelude::*;

pub mod descent;
pub mod grammar;
pub mod lexer;
pub mod parser;
pub mod printer;
pub mod spans;

pub use printer::MyASTVisitor;

verus! {

/// Capability of a tree walker: one operation per category of node.
///
/// Each operation reads the node and changes only the walker. What a walker
/// has accumulated is described by its `state`, and each operation is a
/// function of the state before it and the node it is given: `after_statement`,
/// `after_expression` and `after_number` say which. These four functions are
/// read by the verifier only and are never run.
pub trait ASTVisitor {
    /// Mathematical value of what the walker has accumulated.
    type State;

    spec fn state(&self) -> Self::State;

    /// State of a walker in `state` after it walked `statement`.
    spec fn after_statement(state: Self::State, statement: ASTStatement) -> Self::State;

    /// State of a walker in `state` after it walked `expression`.
    spec fn after_expression(state: Self::State, expression: ASTExpression) -> Self::State;

    /// State of a walker in `state` after it was shown the literal `number`.
    spec fn after_number(state: Self::State, number: i64) -> Self::State;

    fn visit_statement(&mut self, statement: &ASTStatement)
        ensures
            final(self).state() == Self::after_statement(old(self).state(), *statement),
    ;

    fn visit_expression(&mut self, expression: &ASTExpression)
        ensures
            final(self).state() == Self::after_expression(old(self).state(), *expression),
    ;

    fn visit_number(&mut self, number: &i64)
        ensures
            final(self).state() == Self::after_number(old(self).state(), *number),
    ;
}

/// State of a walker that started in `state` and walked `statements` from
/// first to last.
pub open spec fn after_statements<V: ASTVisitor>(
    state: V::State,
    statements: Seq<ASTStatement>,
) -> V::State
    decreases statements.len(),
{
    if statements.len() == 0 {
        state
    } else {
        V::after_statement(
            after_statements::<V>(state, statements.drop_last()),
            statements.last(),
        )
    }
}

/// Root of a syntax tree: the statements of a program in source order.
#[derive(Debug, PartialEq, Eq)]
pub struct Ast {
    pub statements: Vec<ASTStatement>,
}

impl Ast {
    pub fn new() -> (ast: Self)
        ensures
            ast.statements@ == Seq::<ASTStatement>::empty(),
    {
        Self { statements: Vec::new() }
    }

    /// Appends `statement` after the statements already held.
    pub fn add_statement(&mut self, statement: ASTStatement)
        ensures
            final(self).statements@ == old(self).statements@.push(statement),
    {
        self.statements.push(statement);
    }

    /// Hands every statement to `visitor`, in source order. The tree is left
    /// as it was.
    pub fn visit<V: ASTVisitor>(&mut self, visitor: &mut V)
        ensures
            final(self).statements@ == old(self).statements@,
            final(visitor).state() == after_statements::<V>(
                old(visitor).state(),
                old(self).statements@,
            ),
    {
        let mut index: usize = 0;
        while index < self.statements.len()
            invariant
                index <= self.statements@.len(),
                self.statements@ == old(self).statements@,
                visitor.state() == after_statements::<V>(
                    old(visitor).state(),
                    self.statements@.take(index as int),
                ),
            decreases self.statements@.len() - index,
        {
            visitor.visit_statement(&self.statements[index]);
            proof {
                let seen = self.statements@.take(index + 1);
                assert(seen.drop_last() =~= self.statements@.take(index as int));
                assert(seen.last() == self.statements@[index as int]);
            }
            index += 1;
        }
        proof {
            assert(self.statements@.take(index as int) =~= self.statements@);
        }
    }
}

/// The kinds of statement. A statement is an expression for now.
#[derive(Debug, PartialEq, Eq)]
pub enum ASTStatementKind {
    Expression(ASTExpression),
}

#[derive(Debug, PartialEq, Eq)]
pub struct ASTStatement {
    pub kind: ASTStatementKind,
}

impl ASTStatement {
    pub fn expression(expr: ASTExpression) -> (statement: Self)
        ensures
            statement == (ASTStatement { kind: ASTStatementKind::Expression(expr) }),
    {
        ASTStatement { kind: ASTStatementKind::Expression(expr) }
    }
}

/// The four binary operators.
#[derive(Debug, Clone, Copy, PartialEq, Eq)]
pub enum ASTBinaryOperator {
    Add,
    Subtract,
    Multiply,
    Divide,
}

#[derive(Debug, PartialEq, Eq)]
pub enum ASTExpressionKind {
    /// An integer literal.
    Number(i64),
    /// Unary minus applied to an operand.
    Negation(Box<ASTExpression>),
    /// A binary operation: left operand, operator, right operand.
    Binary(Box<ASTExpression>, ASTBinaryOperator, Box<ASTExpression>),
    /// An expression in parentheses.
    Parenthesized(Box<ASTExpression>),
}

#[derive(Debug, PartialEq, Eq)]
pub struct ASTExpression {
    pub kind: ASTExpressionKind,
}

impl ASTExpression {
    pub fn number(value: i64) -> (expression: Self)
        ensures
            expression == (ASTExpression { kind: ASTExpressionKind::Number(value) }),
    {
        ASTExpression { kind: ASTExpressionKind::Number(value) }
    }

    pub fn negation(operand: ASTExpression) -> (expression: Self)
        ensures
            expression == (ASTExpression {
                kind: ASTExpressionKind::Negation(Box::new(operand)),
            }),
    {
        ASTExpression { kind: ASTExpressionKind::Negation(Box::new(operand)) }
    }

    pub fn binary(left: ASTExpression, operator: ASTBinaryOperator, right: ASTExpression) -> (expression: Self)
        ensures
            expression == (ASTExpression {
                kind: ASTExpressionKind::Binary(Box::new(left), operator, Box::new(right)),
            }),
    {
        ASTExpression { kind: ASTExpressionKind::Binary(Box::new(left), operator, Box::new(right)) }
    }

    pub fn parenthesized(inner: ASTExpression) -> (expression: Self)
        ensures
            expression == (ASTExpression {
                kind: ASTExpressionKind::Parenthesized(Box::new(inner)),
            }),
    {
        ASTExpression { kind: ASTExpressionKind::Parenthesized(Box::new(inner)) }
    }
}

} // verus!
