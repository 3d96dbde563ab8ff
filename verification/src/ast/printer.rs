//! Reference tree walker: renders a syntax tree as indented lines of text.
//!
//! Every node gives one line, a parent before its children, and the children
//! of a node stand one level deeper than the node, two spaces per level. The
//! walker collects the lines; writing them out is left to the caller.
use vstd::prelude::*;
use vstd::string::StringExecFns;
use super::{
    after_statements, ASTBinaryOperator, ASTExpression, ASTExpressionKind, ASTStatement,
    ASTStatementKind, ASTVisitor,
};

verus! {

/// What the reference walker has accumulated: the level at which it will
/// write next, and the lines it has written.
pub struct Rendering {
    pub indent_level: usize,
    pub lines: Seq<Seq<char>>,
}

/// The spaces in front of a line at `level`: two per level.
pub open spec fn indentation(level: usize) -> Seq<char> {
    Seq::new((2 * level) as nat, |i: int| ' ')
}

/// The level of the children of a node at `level`: one deeper, as far as the
/// counter reaches.
pub open spec fn child_level(level: usize) -> usize {
    if level < usize::MAX {
        (level + 1) as usize
    } else {
        level
    }
}

/// The character of a decimal digit.
pub open spec fn digit_char(digit: int) -> char
    recommends
        0 <= digit < 10,
{
    (0x30 + digit) as u8 as char
}

/// The decimal digits of a natural number, without leading zeros.
pub open spec fn decimal_digits(n: nat) -> Seq<char>
    decreases n,
{
    if n < 10 {
        seq![digit_char(n as int)]
    } else {
        decimal_digits(n / 10).push(digit_char((n % 10) as int))
    }
}

/// An integer in decimal notation, with a minus sign where it is negative.
pub open spec fn decimal(n: int) -> Seq<char> {
    if n < 0 {
        seq!['-'] + decimal_digits((-n) as nat)
    } else {
        decimal_digits(n as nat)
    }
}

/// What is written for an expression node: the word `Expression:`, followed
/// by the operator of an operation or by `()` for a group.
pub open spec fn expression_label(e: ASTExpression) -> Seq<char> {
    match e.kind {
        ASTExpressionKind::Number(_) => "Expression:"@,
        ASTExpressionKind::Negation(_) => "Expression: -"@,
        ASTExpressionKind::Binary(_, operator, _) => match operator {
            ASTBinaryOperator::Add => "Expression: +"@,
            ASTBinaryOperator::Subtract => "Expression: -"@,
            ASTBinaryOperator::Multiply => "Expression: *"@,
            ASTBinaryOperator::Divide => "Expression: /"@,
        },
        ASTExpressionKind::Parenthesized(_) => "Expression: ()"@,
    }
}

/// The line of a literal at `level`.
pub open spec fn number_lines(level: usize, number: i64) -> Seq<Seq<char>> {
    seq![indentation(level) + "Number: "@ + decimal(number as int)]
}

/// The lines of an expression whose root stands at `level`: its own line,
/// then the lines of its children from left to right, one level deeper.
pub open spec fn expression_lines(level: usize, e: ASTExpression) -> Seq<Seq<char>>
    decreases e,
{
    seq![indentation(level) + expression_label(e)] + match e.kind {
        ASTExpressionKind::Number(value) => number_lines(child_level(level), value),
        ASTExpressionKind::Negation(operand) => expression_lines(child_level(level), *operand),
        ASTExpressionKind::Binary(left, _, right) => expression_lines(child_level(level), *left)
            + expression_lines(child_level(level), *right),
        ASTExpressionKind::Parenthesized(inner) => expression_lines(child_level(level), *inner),
    }
}

/// The lines of a statement at `level`: its own line, then its expression
/// one level deeper.
pub open spec fn statement_lines(level: usize, statement: ASTStatement) -> Seq<Seq<char>> {
    match statement.kind {
        ASTStatementKind::Expression(e) => seq![indentation(level) + "Statement:"@]
            + expression_lines(child_level(level), e),
    }
}

/// Number of nodes of an expression: the expression itself, its literal
/// where it is one, and the nodes of its operands.
pub open spec fn expression_nodes(e: ASTExpression) -> nat
    decreases e,
{
    match e.kind {
        ASTExpressionKind::Number(_) => 2,
        ASTExpressionKind::Negation(operand) => 1 + expression_nodes(*operand),
        ASTExpressionKind::Binary(left, _, right) => 1 + expression_nodes(*left)
            + expression_nodes(*right),
        ASTExpressionKind::Parenthesized(inner) => 1 + expression_nodes(*inner),
    }
}

/// Number of nodes of a statement: the statement and the nodes of its
/// expression.
pub open spec fn statement_nodes(statement: ASTStatement) -> nat {
    match statement.kind {
        ASTStatementKind::Expression(e) => 1 + expression_nodes(e),
    }
}

/// Number of nodes of a sequence of statements.
pub open spec fn program_nodes(statements: Seq<ASTStatement>) -> nat
    decreases statements.len(),
{
    if statements.len() == 0 {
        0
    } else {
        program_nodes(statements.drop_last()) + statement_nodes(statements.last())
    }
}

/// The rendering of an expression holds one line for each of its nodes.
pub proof fn lemma_expression_line_per_node(level: usize, e: ASTExpression)
    ensures
        expression_lines(level, e).len() == expression_nodes(e),
    decreases e,
{
    match e.kind {
        ASTExpressionKind::Number(_) => {},
        ASTExpressionKind::Negation(operand) => {
            lemma_expression_line_per_node(child_level(level), *operand);
        },
        ASTExpressionKind::Binary(left, _, right) => {
            lemma_expression_line_per_node(child_level(level), *left);
            lemma_expression_line_per_node(child_level(level), *right);
        },
        ASTExpressionKind::Parenthesized(inner) => {
            lemma_expression_line_per_node(child_level(level), *inner);
        },
    }
}

/// The rendering of a statement holds one line for each of its nodes.
pub proof fn lemma_statement_line_per_node(level: usize, statement: ASTStatement)
    ensures
        statement_lines(level, statement).len() == statement_nodes(statement),
{
    match statement.kind {
        ASTStatementKind::Expression(e) => {
            lemma_expression_line_per_node(child_level(level), e);
        },
    }
}

/// Walking a sequence of statements with the reference walker leaves the
/// indentation at the level it started from, keeps the lines written before,
/// and adds one line for each node of the statements.
pub proof fn lemma_walk_is_balanced(state: Rendering, statements: Seq<ASTStatement>)
    ensures
        after_statements::<MyASTVisitor>(state, statements).indent_level == state.indent_level,
        after_statements::<MyASTVisitor>(state, statements).lines.len() == state.lines.len()
            + program_nodes(statements),
        after_statements::<MyASTVisitor>(state, statements).lines.subrange(
            0,
            state.lines.len() as int,
        ) == state.lines,
    decreases statements.len(),
{
    if statements.len() > 0 {
        lemma_walk_is_balanced(state, statements.drop_last());
        let before = after_statements::<MyASTVisitor>(state, statements.drop_last());
        lemma_statement_line_per_node(before.indent_level, statements.last());
        let after = after_statements::<MyASTVisitor>(state, statements);
        assert(after.lines.subrange(0, state.lines.len() as int) =~= before.lines.subrange(
            0,
            state.lines.len() as int,
        ));
    } else {
        assert(state.lines.subrange(0, state.lines.len() as int) =~= state.lines);
    }
}

/// The text of one decimal digit.
fn digit_text(digit: u8) -> (text: &'static str)
    requires
        digit < 10,
    ensures
        text@ == seq![digit_char(digit as int)],
{
    proof {
        reveal_strlit("0");
        reveal_strlit("1");
        reveal_strlit("2");
        reveal_strlit("3");
        reveal_strlit("4");
        reveal_strlit("5");
        reveal_strlit("6");
        reveal_strlit("7");
        reveal_strlit("8");
        reveal_strlit("9");
    }
    let text = if digit == 0 {
        "0"
    } else if digit == 1 {
        "1"
    } else if digit == 2 {
        "2"
    } else if digit == 3 {
        "3"
    } else if digit == 4 {
        "4"
    } else if digit == 5 {
        "5"
    } else if digit == 6 {
        "6"
    } else if digit == 7 {
        "7"
    } else if digit == 8 {
        "8"
    } else {
        "9"
    };
    proof {
        assert(text@ =~= seq![digit_char(digit as int)]);
    }
    text
}

/// Appends the decimal digits of `n` to `out`.
fn push_decimal_digits(out: &mut String, n: u64)
    ensures
        final(out)@ == old(out)@ + decimal_digits(n as nat),
    decreases n,
{
    if n >= 10 {
        push_decimal_digits(out, n / 10);
    }
    out.append(digit_text((n % 10) as u8));
}

/// Appends `n` in decimal notation to `out`.
fn push_decimal(out: &mut String, n: i64)
    ensures
        final(out)@ == old(out)@ + decimal(n as int),
{
    if n < 0 {
        proof {
            reveal_strlit("-");
            assert("-"@ =~= seq!['-']);
        }
        out.append("-");
        let magnitude: u64 = (-(n + 1)) as u64 + 1;
        push_decimal_digits(out, magnitude);
    } else {
        push_decimal_digits(out, n as u64);
    }
}

/// Walker that renders the tree it is shown as indented lines.
pub struct MyASTVisitor {
    indent_level: usize,
    lines: Vec<String>,
}

impl MyASTVisitor {
    /// A walker at level 0 that has written nothing.
    pub fn new() -> (visitor: Self)
        ensures
            visitor.state() == (Rendering { indent_level: 0, lines: Seq::empty() }),
    {
        let visitor = Self { indent_level: 0, lines: Vec::new() };
        proof {
            assert(visitor.state().lines =~= Seq::<Seq<char>>::empty());
        }
        visitor
    }

    /// The lines written so far, first to last.
    pub fn lines(&self) -> (lines: &Vec<String>)
        ensures
            lines@.len() == self.state().lines.len(),
            forall|i: int| 0 <= i < lines@.len() ==> (#[trigger] lines@[i])@ == self.state().lines[i],
    {
        &self.lines
    }

    /// A line that starts with the indentation of the current level.
    fn print_indent(&self) -> (line: String)
        ensures
            line@ == indentation(self.indent_level),
    {
        let mut line = String::new();
        let mut written: usize = 0;
        proof {
            reveal_strlit("  ");
        }
        while written < self.indent_level
            invariant
                written <= self.indent_level,
                line@ == indentation(written),
                "  "@.len() == 2,
                "  "@[0] == ' ',
                "  "@[1] == ' ',
            decreases self.indent_level - written,
        {
            line.append("  ");
            written += 1;
            proof {
                assert(line@ =~= indentation(written));
            }
        }
        line
    }

    /// Writes `line` as the next line.
    fn write_line(&mut self, line: String)
        ensures
            final(self).state() == (Rendering {
                indent_level: old(self).state().indent_level,
                lines: old(self).state().lines.push(line@),
            }),
    {
        self.lines.push(line);
        proof {
            assert(self.state().lines =~= old(self).state().lines.push(line@));
        }
    }

    /// Goes one level deeper and returns the level left behind.
    fn enter(&mut self) -> (outer: usize)
        ensures
            outer == old(self).state().indent_level,
            final(self).state() == (Rendering {
                indent_level: child_level(outer),
                lines: old(self).state().lines,
            }),
    {
        let outer = self.indent_level;
        if outer < usize::MAX {
            self.indent_level += 1;
        }
        outer
    }

    /// Comes back to the level `outer` from one level deeper.
    fn leave(&mut self, outer: usize)
        requires
            old(self).state().indent_level == child_level(outer),
        ensures
            final(self).state() == (Rendering {
                indent_level: outer,
                lines: old(self).state().lines,
            }),
    {
        if outer < usize::MAX {
            self.indent_level -= 1;
        }
    }
}

impl ASTVisitor for MyASTVisitor {
    type State = Rendering;

    closed spec fn state(&self) -> Rendering {
        Rendering {
            indent_level: self.indent_level,
            lines: Seq::new(self.lines@.len(), |i: int| self.lines@[i]@),
        }
    }

    open spec fn after_statement(state: Rendering, statement: ASTStatement) -> Rendering {
        Rendering {
            indent_level: state.indent_level,
            lines: state.lines + statement_lines(state.indent_level, statement),
        }
    }

    open spec fn after_expression(state: Rendering, expression: ASTExpression) -> Rendering {
        Rendering {
            indent_level: state.indent_level,
            lines: state.lines + expression_lines(state.indent_level, expression),
        }
    }

    open spec fn after_number(state: Rendering, number: i64) -> Rendering {
        Rendering {
            indent_level: state.indent_level,
            lines: state.lines + number_lines(state.indent_level, number),
        }
    }

    fn visit_statement(&mut self, statement: &ASTStatement) {
        let ghost before = self.state();
        let mut line = self.print_indent();
        line.append("Statement:");
        self.write_line(line);
        match &statement.kind {
            ASTStatementKind::Expression(expression) => {
                let outer = self.enter();
                self.visit_expression(expression);
                self.leave(outer);
            },
        }
        proof {
            assert(self.state().lines =~= before.lines + statement_lines(
                before.indent_level,
                *statement,
            ));
        }
    }

    fn visit_expression(&mut self, expression: &ASTExpression)
        decreases expression,
    {
        let ghost before = self.state();
        let mut line = self.print_indent();
        match &expression.kind {
            ASTExpressionKind::Number(value) => {
                line.append("Expression:");
                self.write_line(line);
                let outer = self.enter();
                self.visit_number(value);
                self.leave(outer);
            },
            ASTExpressionKind::Negation(operand) => {
                line.append("Expression: -");
                self.write_line(line);
                let outer = self.enter();
                self.visit_expression(operand);
                self.leave(outer);
            },
            ASTExpressionKind::Binary(left, operator, right) => {
                match operator {
                    ASTBinaryOperator::Add => line.append("Expression: +"),
                    ASTBinaryOperator::Subtract => line.append("Expression: -"),
                    ASTBinaryOperator::Multiply => line.append("Expression: *"),
                    ASTBinaryOperator::Divide => line.append("Expression: /"),
                }
                self.write_line(line);
                let outer = self.enter();
                self.visit_expression(left);
                self.visit_expression(right);
                self.leave(outer);
            },
            ASTExpressionKind::Parenthesized(inner) => {
                line.append("Expression: ()");
                self.write_line(line);
                let outer = self.enter();
                self.visit_expression(inner);
                self.leave(outer);
            },
        }
        proof {
            assert(self.state().lines =~= before.lines + expression_lines(
                before.indent_level,
                *expression,
            ));
        }
    }

    fn visit_number(&mut self, number: &i64) {
        let ghost before = self.state();
        let mut line = self.print_indent();
        line.append("Number: ");
        push_decimal(&mut line, *number);
        self.write_line(line);
        proof {
            assert(self.state().lines =~= before.lines + number_lines(
                before.indent_level,
                *number,
            ));
        }
    }
}

} // verus!
