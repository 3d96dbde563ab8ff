//! Recursive-descent parser: turns a token sequence into syntax trees.
//!
//! The parser holds the tokens and a cursor. A token is consumed only by
//! `advance`, which moves the cursor forward by one; looking ahead never
//! moves it. A statement that cannot be parsed yields `None` and leaves the
//! cursor where the statement began.
use vstd::prelude::*;
use vstd::string::StringSliceAdditionalSpecFns;
use super::descent::{
    expression_from, expression_rest, factor_from, lemma_expression_complete,
    lemma_expression_sound, lemma_factor_sound, lemma_term_sound, term_from, term_rest,
};
use super::grammar::{
    is_additive_token, is_multiplicative_token, statement_spans, token_kinds, token_operator,
};
use super::lexer::{is_token_stream, token_follows, Lexer, Token, TokenKind};
use super::{ASTBinaryOperator, ASTExpression, ASTStatement, ASTStatementKind, Ast};

verus! {

/// True where a program ends: past the last token, or at the end-of-input
/// token.
pub open spec fn at_end(kinds: Seq<TokenKind>, pos: int) -> bool {
    !(0 <= pos < kinds.len()) || kinds[pos] is Eof
}

/// The statements that are written one after the other from `pos` up to the
/// end of the program, with the position of that end; `None` where some
/// statement on the way cannot be parsed.
pub open spec fn program_from(kinds: Seq<TokenKind>, pos: int) -> Option<
    (Seq<ASTStatement>, int),
>
    decreases kinds.len() - pos,
{
    if at_end(kinds, pos) {
        Some((Seq::empty(), pos))
    } else {
        match expression_from(kinds, pos) {
            Some((e, end)) => if pos < end <= kinds.len() {
                match program_from(kinds, end) {
                    Some((rest, last)) => Some(
                        (seq![ASTStatement { kind: ASTStatementKind::Expression(e) }] + rest, last),
                    ),
                    None => None,
                }
            } else {
                None
            },
            None => None,
        }
    }
}

/// Token sequence with a cursor into it.
pub struct Parser {
    tokens: Vec<Token>,
    current: usize,
}

impl Parser {
    /// The cursor never passes the end of the tokens.
    #[verifier::type_invariant]
    spec fn well_formed(&self) -> bool {
        self.current <= self.tokens@.len()
    }

    /// The tokens being parsed.
    pub closed spec fn tokens(&self) -> Seq<Token> {
        self.tokens@
    }

    /// Number of tokens consumed so far.
    pub closed spec fn cursor(&self) -> int {
        self.current as int
    }

    /// The kinds of the tokens being parsed.
    pub open spec fn kinds(&self) -> Seq<TokenKind> {
        token_kinds(self.tokens())
    }

    pub fn new(tokens: Vec<Token>) -> (parser: Self)
        ensures
            parser.tokens() == tokens@,
            parser.cursor() == 0,
    {
        Self { tokens, current: 0 }
    }

    /// Tokenizes `input` to its end and returns a parser over the tokens.
    pub fn from_input(input: &str) -> (parser: Self)
        ensures
            is_token_stream(input.spec_bytes(), parser.tokens()),
            parser.cursor() == 0,
    {
        let mut lexer = Lexer::new(input);
        let mut tokens: Vec<Token> = Vec::new();
        let ghost src = input.spec_bytes();
        loop
            invariant
                lexer.source() == src,
                0 <= lexer.position() <= src.len(),
                lexer.position() == (if tokens@.len() == 0 {
                    0
                } else {
                    tokens@.last().span.end as int
                }),
                forall|i: int| 0 <= i < tokens@.len() ==> #[trigger] token_follows(src, tokens@, i),
                forall|i: int|
                    0 <= i < tokens@.len() - 1 ==> !((#[trigger] tokens@[i]).kind is Eof),
                lexer.exhausted() <==> (tokens@.len() >= 1 && tokens@.last().kind is Eof),
            ensures
                is_token_stream(src, tokens@),
            decreases src.len() - lexer.position() + (if lexer.exhausted() { 0int } else { 1int }),
        {
            let ghost found = tokens@;
            match lexer.next_token() {
                Some(token) => {
                    tokens.push(token);
                    proof {
                        assert forall|i: int| 0 <= i < tokens@.len() implies #[trigger] token_follows(
                            src,
                            tokens@,
                            i,
                        ) by {
                            if i < found.len() {
                                assert(token_follows(src, found, i));
                            }
                        }
                    }
                },
                None => {
                    break ;
                },
            }
        }
        Self::new(tokens)
    }

    /// Parses the statement at the cursor; the same as `parse_statement`.
    pub fn next_statement(&mut self) -> (result: Option<ASTStatement>)
        ensures
            final(self).tokens() == old(self).tokens(),
            match result {
                Some(statement) => {
                    &&& statement.kind matches ASTStatementKind::Expression(e)
                    &&& statement_spans(old(self).kinds(), old(self).cursor(), final(self).cursor(), e)
                },
                None => {
                    &&& final(self).cursor() == old(self).cursor()
                    &&& forall|e: ASTExpression, end: int|
                        !#[trigger] statement_spans(old(self).kinds(), old(self).cursor(), end, e)
                },
            },
    {
        self.parse_statement()
    }

    /// Parses the statement at the cursor.
    ///
    /// Where a statement starts at the cursor, that is, an expression of the
    /// grammar that no binary operator follows, the result is its tree and
    /// the cursor stands after its last token. Where none starts there, the
    /// result is `None` and the cursor has not moved.
    pub fn parse_statement(&mut self) -> (result: Option<ASTStatement>)
        ensures
            final(self).tokens() == old(self).tokens(),
            match result {
                Some(statement) => {
                    &&& statement.kind matches ASTStatementKind::Expression(e)
                    &&& statement_spans(old(self).kinds(), old(self).cursor(), final(self).cursor(), e)
                },
                None => {
                    &&& final(self).cursor() == old(self).cursor()
                    &&& forall|e: ASTExpression, end: int|
                        !#[trigger] statement_spans(old(self).kinds(), old(self).cursor(), end, e)
                },
            },
    {
        let start = self.current;
        proof {
            use_type_invariant(&*self);
            lemma_expression_sound(self.kinds(), start as int);
        }
        match self.parse_expression() {
            Some(expression) => Some(ASTStatement::expression(expression)),
            None => {
                proof {
                    assert forall|e: ASTExpression, end: int|
                        !#[trigger] statement_spans(old(self).kinds(), start as int, end, e) by {
                        if statement_spans(old(self).kinds(), start as int, end, e) {
                            lemma_expression_complete(old(self).kinds(), start as int, e, end);
                        }
                    }
                }
                self.current = start;
                None
            },
        }
    }

    /// Parses statements from the cursor up to the end of the program.
    ///
    /// The result is the tree of all of them, in source order, with the
    /// cursor at the end of the program, or `None`, with the cursor where it
    /// was, when one of them cannot be parsed.
    pub fn parse_program(&mut self) -> (result: Option<Ast>)
        ensures
            final(self).tokens() == old(self).tokens(),
            match program_from(old(self).kinds(), old(self).cursor()) {
                Some((statements, end)) => {
                    &&& result matches Some(ast)
                    &&& ast.statements@ == statements
                    &&& final(self).cursor() == end
                },
                None => result is None && final(self).cursor() == old(self).cursor(),
            },
    {
        let start = self.current;
        let mut ast = Ast::new();
        proof {
            use_type_invariant(&*self);
        }
        loop
            invariant
                self.tokens() == old(self).tokens(),
                start == old(self).cursor(),
                start <= self.cursor() <= self.tokens().len(),
                program_from(self.kinds(), start as int) == (match program_from(
                    self.kinds(),
                    self.cursor(),
                ) {
                    Some((rest, end)) => Some((ast.statements@ + rest, end)),
                    None => None,
                }),
            ensures
                at_end(self.kinds(), self.cursor()),
            decreases self.tokens().len() - self.cursor(),
        {
            if self.is_at_end() {
                break ;
            }
            let ghost before = self.cursor();
            let ghost seen = ast.statements@;
            proof {
                lemma_expression_sound(self.kinds(), before);
            }
            match self.parse_statement() {
                Some(statement) => {
                    proof {
                        let e = statement.kind->Expression_0;
                        lemma_expression_complete(self.kinds(), before, e, self.cursor());
                        use_type_invariant(&*self);
                    }
                    ast.add_statement(statement);
                    proof {
                        match program_from(self.kinds(), self.cursor()) {
                            Some((rest, end)) => {
                                assert(seen + (seq![statement] + rest) =~= ast.statements@ + rest);
                            },
                            None => {},
                        }
                    }
                },
                None => {
                    proof {
                        if let Some((e, end)) = expression_from(self.kinds(), before) {
                            assert(statement_spans(self.kinds(), before, end, e));
                        }
                    }
                    self.current = start;
                    return None;
                },
            }
        }
        proof {
            assert(ast.statements@ + Seq::<ASTStatement>::empty() =~= ast.statements@);
        }
        Some(ast)
    }

    /// True where the program ends at the cursor.
    fn is_at_end(&self) -> (ended: bool)
        ensures
            ended == at_end(self.kinds(), self.cursor()),
    {
        match self.current() {
            Some(token) => match token.kind {
                TokenKind::Eof => true,
                _ => false,
            },
            None => true,
        }
    }

    /// The token `offset` places after the cursor, if there is one. The
    /// cursor does not move.
    fn peek(&self, offset: usize) -> (token: Option<&Token>)
        ensures
            token == (if self.cursor() + offset < self.tokens().len() {
                Some(&self.tokens()[self.cursor() + offset])
            } else {
                None
            }),
    {
        proof {
            use_type_invariant(self);
        }
        if offset < self.tokens.len() - self.current {
            Some(&self.tokens[self.current + offset])
        } else {
            None
        }
    }

    /// The token at the cursor, if there is one. The cursor does not move.
    fn current(&self) -> (token: Option<&Token>)
        ensures
            token == (if self.cursor() < self.tokens().len() {
                Some(&self.tokens()[self.cursor()])
            } else {
                None
            }),
    {
        self.peek(0)
    }

    /// Consumes the token at the cursor and returns it; at the end of the
    /// tokens nothing is consumed.
    fn advance(&mut self) -> (token: Option<&Token>)
        ensures
            final(self).tokens() == old(self).tokens(),
            old(self).cursor() < old(self).tokens().len() ==> {
                &&& token == Some(&old(self).tokens()[old(self).cursor()])
                &&& final(self).cursor() == old(self).cursor() + 1
            },
            old(self).cursor() >= old(self).tokens().len() ==> {
                &&& token is None
                &&& final(self).cursor() == old(self).cursor()
            },
    {
        proof {
            use_type_invariant(&*self);
        }
        if self.current < self.tokens.len() {
            let token = &self.tokens[self.current];
            self.current += 1;
            Some(token)
        } else {
            None
        }
    }

    /// The operator at the cursor, where a `*` or `/` stands there.
    fn multiplicative_ahead(&self) -> (operator: Option<ASTBinaryOperator>)
        ensures
            operator == (if self.cursor() < self.tokens().len() && is_multiplicative_token(
                self.kinds()[self.cursor()],
            ) {
                Some(token_operator(self.kinds()[self.cursor()]))
            } else {
                None
            }),
    {
        match self.current() {
            Some(token) => match token.kind {
                TokenKind::Asterisk => Some(ASTBinaryOperator::Multiply),
                TokenKind::Slash => Some(ASTBinaryOperator::Divide),
                _ => None,
            },
            None => None,
        }
    }

    /// The operator at the cursor, where a `+` or `-` stands there.
    fn additive_ahead(&self) -> (operator: Option<ASTBinaryOperator>)
        ensures
            operator == (if self.cursor() < self.tokens().len() && is_additive_token(
                self.kinds()[self.cursor()],
            ) {
                Some(token_operator(self.kinds()[self.cursor()]))
            } else {
                None
            }),
    {
        match self.current() {
            Some(token) => match token.kind {
                TokenKind::Plus => Some(ASTBinaryOperator::Add),
                TokenKind::Minus => Some(ASTBinaryOperator::Subtract),
                _ => None,
            },
            None => None,
        }
    }

    /// `expression := term (("+" | "-") term)*`
    fn parse_expression(&mut self) -> (result: Option<ASTExpression>)
        ensures
            final(self).tokens() == old(self).tokens(),
            match expression_from(old(self).kinds(), old(self).cursor()) {
                Some((e, end)) => result == Some(e) && final(self).cursor() == end,
                None => result is None,
            },
        decreases old(self).tokens().len() - old(self).cursor(), 4int,
    {
        let ghost kinds = self.kinds();
        let ghost start = self.cursor();
        proof {
            lemma_term_sound(kinds, start);
        }
        let mut left = self.parse_term()?;
        loop
            invariant
                self.tokens() == old(self).tokens(),
                kinds == self.kinds(),
                start == old(self).cursor(),
                start < self.cursor() <= kinds.len(),
                expression_rest(kinds, left, self.cursor()) == expression_from(kinds, start),
            ensures
                expression_from(kinds, start) == Some((left, self.cursor())),
            decreases kinds.len() - self.cursor(),
        {
            let operator = match self.additive_ahead() {
                Some(operator) => operator,
                None => {
                    break ;
                },
            };
            proof {
                lemma_term_sound(kinds, self.cursor() + 1);
            }
            self.advance();
            let right = self.parse_term()?;
            left = ASTExpression::binary(left, operator, right);
        }
        Some(left)
    }

    /// `term := factor (("*" | "/") factor)*`
    fn parse_term(&mut self) -> (result: Option<ASTExpression>)
        ensures
            final(self).tokens() == old(self).tokens(),
            match term_from(old(self).kinds(), old(self).cursor()) {
                Some((e, end)) => result == Some(e) && final(self).cursor() == end,
                None => result is None,
            },
        decreases old(self).tokens().len() - old(self).cursor(), 2int,
    {
        let ghost kinds = self.kinds();
        let ghost start = self.cursor();
        proof {
            lemma_factor_sound(kinds, start);
        }
        let mut left = self.parse_factor()?;
        loop
            invariant
                self.tokens() == old(self).tokens(),
                kinds == self.kinds(),
                start == old(self).cursor(),
                start < self.cursor() <= kinds.len(),
                term_rest(kinds, left, self.cursor()) == term_from(kinds, start),
            ensures
                term_from(kinds, start) == Some((left, self.cursor())),
            decreases kinds.len() - self.cursor(),
        {
            let operator = match self.multiplicative_ahead() {
                Some(operator) => operator,
                None => {
                    break ;
                },
            };
            proof {
                lemma_factor_sound(kinds, self.cursor() + 1);
            }
            self.advance();
            let right = self.parse_factor()?;
            left = ASTExpression::binary(left, operator, right);
        }
        Some(left)
    }

    /// `factor := NUMBER | "(" expression ")" | "-" factor`
    fn parse_factor(&mut self) -> (result: Option<ASTExpression>)
        ensures
            final(self).tokens() == old(self).tokens(),
            match factor_from(old(self).kinds(), old(self).cursor()) {
                Some((e, end)) => result == Some(e) && final(self).cursor() == end,
                None => result is None,
            },
        decreases old(self).tokens().len() - old(self).cursor(), 0int,
    {
        let ghost kinds = self.kinds();
        let ghost start = self.cursor();
        proof {
            use_type_invariant(&*self);
        }
        let token = self.advance()?;
        match token.kind {
            TokenKind::Number(value) => Some(ASTExpression::number(value)),
            TokenKind::Minus => {
                let operand = self.parse_factor()?;
                Some(ASTExpression::negation(operand))
            },
            TokenKind::LeftParen => {
                proof {
                    lemma_expression_sound(kinds, start + 1);
                }
                let inner = self.parse_expression()?;
                match self.advance() {
                    Some(closing) => match closing.kind {
                        TokenKind::RightParen => Some(ASTExpression::parenthesized(inner)),
                        _ => None,
                    },
                    None => None,
                }
            },
            _ => None,
        }
    }
}

} // verus!
