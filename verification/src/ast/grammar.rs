//! The grammar of the language, stated over syntax trees and token kinds.
//!
//! ```text
//! expression := term (("+" | "-") term)*
//! term       := factor (("*" | "/") factor)*
//! factor     := NUMBER | "(" expression ")" | "-" factor
//! ```
//!
//! Binary operators associate to the left, `*` and `/` bind tighter than `+`
//! and `-`, and unary minus binds tightest.
use vstd::prelude::*;
use super::lexer::{Token, TokenKind};
use super::{ASTBinaryOperator, ASTExpression, ASTExpressionKind};

verus! {

/// The kinds of a sequence of tokens, in order.
pub open spec fn token_kinds(tokens: Seq<Token>) -> Seq<TokenKind> {
    Seq::new(tokens.len(), |i: int| tokens[i].kind)
}

/// The token that stands for a binary operator.
pub open spec fn operator_token(operator: ASTBinaryOperator) -> TokenKind {
    match operator {
        ASTBinaryOperator::Add => TokenKind::Plus,
        ASTBinaryOperator::Subtract => TokenKind::Minus,
        ASTBinaryOperator::Multiply => TokenKind::Asterisk,
        ASTBinaryOperator::Divide => TokenKind::Slash,
    }
}

pub open spec fn is_additive(operator: ASTBinaryOperator) -> bool {
    operator is Add || operator is Subtract
}

pub open spec fn is_multiplicative(operator: ASTBinaryOperator) -> bool {
    operator is Multiply || operator is Divide
}

/// The tokens that a tree is written with.
pub open spec fn expression_tokens(e: ASTExpression) -> Seq<TokenKind>
    decreases e,
{
    match e.kind {
        ASTExpressionKind::Number(value) => seq![TokenKind::Number(value)],
        ASTExpressionKind::Negation(operand) => seq![TokenKind::Minus] + expression_tokens(
            *operand,
        ),
        ASTExpressionKind::Binary(left, operator, right) => expression_tokens(*left)
            + seq![operator_token(operator)] + expression_tokens(*right),
        ASTExpressionKind::Parenthesized(inner) => seq![TokenKind::LeftParen] + expression_tokens(
            *inner,
        ) + seq![TokenKind::RightParen],
    }
}

/// `e` has the shape of a `factor`: a literal, a group around an
/// `expression`, or a minus in front of a `factor`.
pub open spec fn is_factor(e: ASTExpression) -> bool
    decreases e, 0int,
{
    match e.kind {
        ASTExpressionKind::Number(_) => true,
        ASTExpressionKind::Negation(operand) => is_factor(*operand),
        ASTExpressionKind::Binary(_, _, _) => false,
        ASTExpressionKind::Parenthesized(inner) => is_expression(*inner),
    }
}

/// `e` has the shape of a `term`: a `factor`, or a `term` multiplied or
/// divided by a `factor`.
pub open spec fn is_term(e: ASTExpression) -> bool
    decreases e, 1int,
{
    match e.kind {
        ASTExpressionKind::Binary(left, operator, right) => is_multiplicative(operator)
            && is_term(*left) && is_factor(*right),
        _ => is_factor(e),
    }
}

/// `e` has the shape of an `expression`: a `term`, or an `expression` with a
/// `term` added to or subtracted from it.
pub open spec fn is_expression(e: ASTExpression) -> bool
    decreases e, 2int,
{
    is_term(e) || match e.kind {
        ASTExpressionKind::Binary(left, operator, right) => is_additive(operator)
            && is_expression(*left) && is_term(*right),
        _ => false,
    }
}

pub open spec fn is_additive_token(kind: TokenKind) -> bool {
    kind is Plus || kind is Minus
}

pub open spec fn is_multiplicative_token(kind: TokenKind) -> bool {
    kind is Asterisk || kind is Slash
}

pub open spec fn is_binary_operator_token(kind: TokenKind) -> bool {
    is_additive_token(kind) || is_multiplicative_token(kind)
}

/// The operator that an operator token stands for.
pub open spec fn token_operator(kind: TokenKind) -> ASTBinaryOperator
    recommends
        is_binary_operator_token(kind),
{
    match kind {
        TokenKind::Plus => ASTBinaryOperator::Add,
        TokenKind::Minus => ASTBinaryOperator::Subtract,
        TokenKind::Asterisk => ASTBinaryOperator::Multiply,
        _ => ASTBinaryOperator::Divide,
    }
}

/// The tokens `kinds[from..to]` are exactly those of the expression `e`.
pub open spec fn expression_spans(
    kinds: Seq<TokenKind>,
    from: int,
    to: int,
    e: ASTExpression,
) -> bool {
    &&& 0 <= from <= to <= kinds.len()
    &&& is_expression(e)
    &&& kinds.subrange(from, to) == expression_tokens(e)
}

/// No binary operator stands at `pos`: an expression that ends there cannot
/// go on.
pub open spec fn ends_expression(kinds: Seq<TokenKind>, pos: int) -> bool {
    !(0 <= pos < kinds.len() && is_binary_operator_token(kinds[pos]))
}

/// `e` is the statement that starts at `from`: its tokens are
/// `kinds[from..to]`, and the token that follows does not continue it.
pub open spec fn statement_spans(
    kinds: Seq<TokenKind>,
    from: int,
    to: int,
    e: ASTExpression,
) -> bool {
    expression_spans(kinds, from, to, e) && ends_expression(kinds, to)
}

/// Every tree is written with at least one token.
pub proof fn lemma_expression_tokens_nonempty(e: ASTExpression)
    ensures
        expression_tokens(e).len() >= 1,
    decreases e,
{
    match e.kind {
        ASTExpressionKind::Number(_) => {},
        ASTExpressionKind::Negation(operand) => {
            lemma_expression_tokens_nonempty(*operand);
        },
        ASTExpressionKind::Binary(left, _, right) => {
            lemma_expression_tokens_nonempty(*left);
            lemma_expression_tokens_nonempty(*right);
        },
        ASTExpressionKind::Parenthesized(inner) => {
            lemma_expression_tokens_nonempty(*inner);
        },
    }
}

} // verus!
