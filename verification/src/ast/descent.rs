//! Recursive descent as a function of the token kinds and a position, and the
//! proof that it finds exactly the trees that the grammar describes.
//!
//! Each function reads the tokens from a position on and yields the tree of
//! the longest piece of text that its rule matches together with the position
//! after it, or `None` where the rule does not match.
use vstd::prelude::*;
use super::grammar::{
    expression_tokens, is_additive_token, is_expression, is_factor, is_multiplicative_token,
    is_term, lemma_expression_tokens_nonempty, operator_token, statement_spans, token_operator,
};
use super::lexer::TokenKind;
use super::{ASTBinaryOperator, ASTExpression, ASTExpressionKind};

verus! {

pub open spec fn number_node(value: i64) -> ASTExpression {
    ASTExpression { kind: ASTExpressionKind::Number(value) }
}

pub open spec fn negation_node(operand: ASTExpression) -> ASTExpression {
    ASTExpression { kind: ASTExpressionKind::Negation(Box::new(operand)) }
}

pub open spec fn binary_node(
    left: ASTExpression,
    operator: ASTBinaryOperator,
    right: ASTExpression,
) -> ASTExpression {
    ASTExpression { kind: ASTExpressionKind::Binary(Box::new(left), operator, Box::new(right)) }
}

pub open spec fn parenthesized_node(inner: ASTExpression) -> ASTExpression {
    ASTExpression { kind: ASTExpressionKind::Parenthesized(Box::new(inner)) }
}

/// `factor := NUMBER | "(" expression ")" | "-" factor`, read at `pos`.
pub open spec fn factor_from(kinds: Seq<TokenKind>, pos: int) -> Option<(ASTExpression, int)>
    decreases kinds.len() - pos, 0int,
{
    if 0 <= pos < kinds.len() {
        match kinds[pos] {
            TokenKind::Number(value) => Some((number_node(value), pos + 1)),
            TokenKind::Minus => match factor_from(kinds, pos + 1) {
                Some((operand, end)) => Some((negation_node(operand), end)),
                None => None,
            },
            TokenKind::LeftParen => match expression_from(kinds, pos + 1) {
                Some((inner, end)) => if 0 <= end < kinds.len() && kinds[end] is RightParen {
                    Some((parenthesized_node(inner), end + 1))
                } else {
                    None
                },
                None => None,
            },
            _ => None,
        }
    } else {
        None
    }
}

/// `(("*" | "/") factor)*` read at `pos`, folded to the left onto `left`.
///
/// A factor ends after the position it starts at and inside the tokens
/// (`lemma_factor_sound`); the test on `end` only lets the recursion be seen
/// to end.
pub open spec fn term_rest(kinds: Seq<TokenKind>, left: ASTExpression, pos: int) -> Option<
    (ASTExpression, int),
>
    decreases kinds.len() - pos, 1int,
{
    if 0 <= pos < kinds.len() && is_multiplicative_token(kinds[pos]) {
        match factor_from(kinds, pos + 1) {
            Some((right, end)) => if pos < end <= kinds.len() {
                term_rest(kinds, binary_node(left, token_operator(kinds[pos]), right), end)
            } else {
                None
            },
            None => None,
        }
    } else {
        Some((left, pos))
    }
}

/// `term := factor (("*" | "/") factor)*`, read at `pos`.
pub open spec fn term_from(kinds: Seq<TokenKind>, pos: int) -> Option<(ASTExpression, int)>
    decreases kinds.len() - pos, 2int,
{
    match factor_from(kinds, pos) {
        Some((first, end)) => if pos <= end <= kinds.len() {
            term_rest(kinds, first, end)
        } else {
            None
        },
        None => None,
    }
}

/// `(("+" | "-") term)*` read at `pos`, folded to the left onto `left`.
pub open spec fn expression_rest(kinds: Seq<TokenKind>, left: ASTExpression, pos: int) -> Option<
    (ASTExpression, int),
>
    decreases kinds.len() - pos, 3int,
{
    if 0 <= pos < kinds.len() && is_additive_token(kinds[pos]) {
        match term_from(kinds, pos + 1) {
            Some((right, end)) => if pos < end <= kinds.len() {
                expression_rest(kinds, binary_node(left, token_operator(kinds[pos]), right), end)
            } else {
                None
            },
            None => None,
        }
    } else {
        Some((left, pos))
    }
}

/// `expression := term (("+" | "-") term)*`, read at `pos`.
pub open spec fn expression_from(kinds: Seq<TokenKind>, pos: int) -> Option<(ASTExpression, int)>
    decreases kinds.len() - pos, 4int,
{
    match term_from(kinds, pos) {
        Some((first, end)) => if pos <= end <= kinds.len() {
            expression_rest(kinds, first, end)
        } else {
            None
        },
        None => None,
    }
}

/// What `factor_from` yields is a factor written with the tokens it passed.
pub proof fn lemma_factor_sound(kinds: Seq<TokenKind>, pos: int)
    ensures
        factor_from(kinds, pos) matches Some((e, end)) ==> {
            &&& 0 <= pos < end <= kinds.len()
            &&& is_factor(e)
            &&& kinds.subrange(pos, end) == expression_tokens(e)
        },
    decreases kinds.len() - pos, 0int,
{
    if 0 <= pos < kinds.len() {
        match kinds[pos] {
            TokenKind::Number(value) => {
                assert(kinds.subrange(pos, pos + 1) =~= seq![kinds[pos]]);
            },
            TokenKind::Minus => {
                lemma_factor_sound(kinds, pos + 1);
                if let Some((operand, end)) = factor_from(kinds, pos + 1) {
                    assert(kinds.subrange(pos, end) =~= seq![kinds[pos]] + kinds.subrange(
                        pos + 1,
                        end,
                    ));
                }
            },
            TokenKind::LeftParen => {
                lemma_expression_sound(kinds, pos + 1);
                if let Some((inner, end)) = expression_from(kinds, pos + 1) {
                    if end < kinds.len() && kinds[end] is RightParen {
                        assert(kinds.subrange(pos, end + 1) =~= seq![kinds[pos]] + kinds.subrange(
                            pos + 1,
                            end,
                        ) + seq![kinds[end]]);
                    }
                }
            },
            _ => {},
        }
    }
}

/// `term_rest` extends a term that ends at `pos` to a term that no `*` or
/// `/` follows.
pub proof fn lemma_term_rest_sound(kinds: Seq<TokenKind>, from: int, left: ASTExpression, pos: int)
    requires
        0 <= from <= pos <= kinds.len(),
        is_term(left),
        kinds.subrange(from, pos) == expression_tokens(left),
    ensures
        term_rest(kinds, left, pos) matches Some((e, end)) ==> {
            &&& pos <= end <= kinds.len()
            &&& is_term(e)
            &&& kinds.subrange(from, end) == expression_tokens(e)
            &&& !(end < kinds.len() && is_multiplicative_token(kinds[end]))
        },
    decreases kinds.len() - pos, 1int,
{
    if pos < kinds.len() && is_multiplicative_token(kinds[pos]) {
        lemma_factor_sound(kinds, pos + 1);
        if let Some((right, end)) = factor_from(kinds, pos + 1) {
            let operator = token_operator(kinds[pos]);
            let joined = binary_node(left, operator, right);
            assert(kinds.subrange(from, end) =~= kinds.subrange(from, pos) + seq![kinds[pos]]
                + kinds.subrange(pos + 1, end));
            assert(operator_token(operator) == kinds[pos]);
            lemma_term_rest_sound(kinds, from, joined, end);
        }
    }
}

/// What `term_from` yields is a term written with the tokens it passed, and
/// no `*` or `/` follows it.
pub proof fn lemma_term_sound(kinds: Seq<TokenKind>, pos: int)
    ensures
        term_from(kinds, pos) matches Some((e, end)) ==> {
            &&& 0 <= pos < end <= kinds.len()
            &&& is_term(e)
            &&& kinds.subrange(pos, end) == expression_tokens(e)
            &&& !(end < kinds.len() && is_multiplicative_token(kinds[end]))
        },
    decreases kinds.len() - pos, 2int,
{
    lemma_factor_sound(kinds, pos);
    if let Some((first, end)) = factor_from(kinds, pos) {
        lemma_term_rest_sound(kinds, pos, first, end);
    }
}

/// `expression_rest` extends an expression that ends at `pos`, where no `*`
/// or `/` stands, to an expression that no binary operator follows.
pub proof fn lemma_expression_rest_sound(
    kinds: Seq<TokenKind>,
    from: int,
    left: ASTExpression,
    pos: int,
)
    requires
        0 <= from <= pos <= kinds.len(),
        is_expression(left),
        kinds.subrange(from, pos) == expression_tokens(left),
        !(pos < kinds.len() && is_multiplicative_token(kinds[pos])),
    ensures
        expression_rest(kinds, left, pos) matches Some((e, end)) ==> {
            &&& pos <= end <= kinds.len()
            &&& statement_spans(kinds, from, end, e)
        },
    decreases kinds.len() - pos, 3int,
{
    if pos < kinds.len() && is_additive_token(kinds[pos]) {
        lemma_term_sound(kinds, pos + 1);
        if let Some((right, end)) = term_from(kinds, pos + 1) {
            let operator = token_operator(kinds[pos]);
            let joined = binary_node(left, operator, right);
            assert(kinds.subrange(from, end) =~= kinds.subrange(from, pos) + seq![kinds[pos]]
                + kinds.subrange(pos + 1, end));
            assert(operator_token(operator) == kinds[pos]);
            lemma_expression_rest_sound(kinds, from, joined, end);
        }
    }
}

/// What `expression_from` yields is the statement that starts at `pos`.
pub proof fn lemma_expression_sound(kinds: Seq<TokenKind>, pos: int)
    ensures
        expression_from(kinds, pos) matches Some((e, end)) ==> {
            &&& pos < end
            &&& statement_spans(kinds, pos, end, e)
        },
    decreases kinds.len() - pos, 4int,
{
    lemma_term_sound(kinds, pos);
    if let Some((first, end)) = term_from(kinds, pos) {
        lemma_expression_rest_sound(kinds, pos, first, end);
    }
}

/// `factor_from` finds every factor that is written at `pos`.
pub proof fn lemma_factor_complete(kinds: Seq<TokenKind>, pos: int, e: ASTExpression, end: int)
    requires
        0 <= pos <= end <= kinds.len(),
        is_factor(e),
        kinds.subrange(pos, end) == expression_tokens(e),
    ensures
        factor_from(kinds, pos) == Some((e, end)),
    decreases e, 0int,
{
    let text = kinds.subrange(pos, end);
    lemma_expression_tokens_nonempty(e);
    assert(text[0] == kinds[pos]);
    match e.kind {
        ASTExpressionKind::Number(value) => {},
        ASTExpressionKind::Negation(operand) => {
            assert(kinds.subrange(pos + 1, end) =~= text.subrange(1, text.len() as int));
            assert(expression_tokens(*operand) =~= text.subrange(1, text.len() as int));
            lemma_factor_complete(kinds, pos + 1, *operand, end);
        },
        ASTExpressionKind::Binary(_, _, _) => {},
        ASTExpressionKind::Parenthesized(inner) => {
            assert(text[text.len() - 1] == kinds[end - 1]);
            assert(kinds.subrange(pos + 1, end - 1) =~= text.subrange(1, text.len() - 1));
            assert(expression_tokens(*inner) =~= text.subrange(1, text.len() - 1));
            lemma_expression_complete(kinds, pos + 1, *inner, end - 1);
        },
    }
}

/// Reading a term at `pos` passes through every term that is written there:
/// after its first factor, the repetition takes up the rest of it.
pub proof fn lemma_term_absorbs(kinds: Seq<TokenKind>, pos: int, e: ASTExpression, end: int)
    requires
        0 <= pos <= end <= kinds.len(),
        is_term(e),
        kinds.subrange(pos, end) == expression_tokens(e),
    ensures
        term_from(kinds, pos) == term_rest(kinds, e, end),
    decreases e, 1int,
{
    match e.kind {
        ASTExpressionKind::Binary(left, operator, right) => {
            let text = kinds.subrange(pos, end);
            let mid = pos + expression_tokens(*left).len();
            lemma_expression_tokens_nonempty(*right);
            assert(text == expression_tokens(*left) + seq![operator_token(operator)]
                + expression_tokens(*right));
            assert(text.len() == expression_tokens(*left).len() + 1 + expression_tokens(
                *right,
            ).len());
            assert(kinds.subrange(pos, mid) =~= text.subrange(0, mid - pos));
            assert(expression_tokens(*left) =~= text.subrange(0, mid - pos));
            assert(text[mid - pos] == kinds[mid]);
            assert(kinds[mid] == operator_token(operator));
            assert(kinds.subrange(mid + 1, end) =~= text.subrange(
                mid - pos + 1,
                text.len() as int,
            ));
            assert(expression_tokens(*right) =~= text.subrange(mid - pos + 1, text.len() as int));
            lemma_term_absorbs(kinds, pos, *left, mid);
            lemma_factor_complete(kinds, mid + 1, *right, end);
            assert(binary_node(*left, token_operator(kinds[mid]), *right) == e);
        },
        _ => {
            lemma_factor_complete(kinds, pos, e, end);
        },
    }
}

/// `term_from` finds every term that is written at `pos` and that no `*` or
/// `/` follows.
pub proof fn lemma_term_complete(kinds: Seq<TokenKind>, pos: int, e: ASTExpression, end: int)
    requires
        0 <= pos <= end <= kinds.len(),
        is_term(e),
        kinds.subrange(pos, end) == expression_tokens(e),
        !(end < kinds.len() && is_multiplicative_token(kinds[end])),
    ensures
        term_from(kinds, pos) == Some((e, end)),
    decreases e, 2int,
{
    lemma_term_absorbs(kinds, pos, e, end);
}

/// Reading an expression at `pos` passes through every expression that is
/// written there and that no `*` or `/` follows.
pub proof fn lemma_expression_absorbs(kinds: Seq<TokenKind>, pos: int, e: ASTExpression, end: int)
    requires
        0 <= pos <= end <= kinds.len(),
        is_expression(e),
        kinds.subrange(pos, end) == expression_tokens(e),
        !(end < kinds.len() && is_multiplicative_token(kinds[end])),
    ensures
        expression_from(kinds, pos) == expression_rest(kinds, e, end),
    decreases e, 3int,
{
    if is_term(e) {
        lemma_term_complete(kinds, pos, e, end);
    } else {
        match e.kind {
            ASTExpressionKind::Binary(left, operator, right) => {
                let text = kinds.subrange(pos, end);
                let mid = pos + expression_tokens(*left).len();
                lemma_expression_tokens_nonempty(*right);
                assert(text == expression_tokens(*left) + seq![operator_token(operator)]
                    + expression_tokens(*right));
                assert(text.len() == expression_tokens(*left).len() + 1 + expression_tokens(
                    *right,
                ).len());
                assert(kinds.subrange(pos, mid) =~= text.subrange(0, mid - pos));
                assert(expression_tokens(*left) =~= text.subrange(0, mid - pos));
                assert(text[mid - pos] == kinds[mid]);
                assert(kinds[mid] == operator_token(operator));
                assert(kinds.subrange(mid + 1, end) =~= text.subrange(
                    mid - pos + 1,
                    text.len() as int,
                ));
                assert(expression_tokens(*right) =~= text.subrange(
                    mid - pos + 1,
                    text.len() as int,
                ));
                lemma_expression_absorbs(kinds, pos, *left, mid);
                lemma_term_complete(kinds, mid + 1, *right, end);
                assert(binary_node(*left, token_operator(kinds[mid]), *right) == e);
            },
            _ => {},
        }
    }
}

/// `expression_from` finds the statement that starts at `pos`, whenever there
/// is one.
pub proof fn lemma_expression_complete(kinds: Seq<TokenKind>, pos: int, e: ASTExpression, end: int)
    requires
        statement_spans(kinds, pos, end, e),
    ensures
        expression_from(kinds, pos) == Some((e, end)),
    decreases e, 4int,
{
    lemma_expression_absorbs(kinds, pos, e, end);
}

/// At most one statement starts at a position: the grammar is unambiguous,
/// and a statement reaches as far as it can.
pub proof fn lemma_statement_unique(
    kinds: Seq<TokenKind>,
    from: int,
    first: ASTExpression,
    first_end: int,
    second: ASTExpression,
    second_end: int,
)
    requires
        statement_spans(kinds, from, first_end, first),
        statement_spans(kinds, from, second_end, second),
    ensures
        first == second,
        first_end == second_end,
{
    lemma_expression_complete(kinds, from, first, first_end);
    lemma_expression_complete(kinds, from, second, second_end);
}

/// Writing a tree of the grammar as tokens and reading the tokens gives the
/// tree back.
pub proof fn lemma_read_back(e: ASTExpression)
    requires
        is_expression(e),
    ensures
        expression_from(expression_tokens(e), 0) == Some((e, expression_tokens(e).len() as int)),
{
    let kinds = expression_tokens(e);
    assert(kinds.subrange(0, kinds.len() as int) =~= kinds);
    lemma_expression_complete(kinds, 0, e, kinds.len() as int);
}

} // verus!
