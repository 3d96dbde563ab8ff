use meow_compiler::ast::parser::Parser;
use meow_compiler::ast::{
    ASTBinaryOperator, ASTExpression, ASTExpressionKind, ASTStatement, ASTStatementKind,
    ASTVisitor, Ast, MyASTVisitor,
};

fn render(input: &str) -> Vec<String> {
    let mut ast = Parser::from_input(input).parse_program().expect("a program");
    let mut visitor = MyASTVisitor::new();
    ast.visit(&mut visitor);
    visitor.lines().clone()
}

fn render_number(value: i64) -> Vec<String> {
    let mut ast = Ast::new();
    ast.add_statement(ASTStatement::expression(ASTExpression::number(value)));
    let mut visitor = MyASTVisitor::new();
    ast.visit(&mut visitor);
    visitor.lines().clone()
}

fn expression_nodes(e: &ASTExpression) -> usize {
    match &e.kind {
        ASTExpressionKind::Number(_) => 2,
        ASTExpressionKind::Negation(operand) => 1 + expression_nodes(operand),
        ASTExpressionKind::Binary(left, _, right) => {
            1 + expression_nodes(left) + expression_nodes(right)
        }
        ASTExpressionKind::Parenthesized(inner) => 1 + expression_nodes(inner),
    }
}

fn program_nodes(ast: &Ast) -> usize {
    ast.statements
        .iter()
        .map(|statement| match &statement.kind {
            ASTStatementKind::Expression(e) => 1 + expression_nodes(e),
        })
        .sum()
}

/// Walker that records the order in which it is shown the nodes.
struct Recorder {
    seen: Vec<String>,
}

impl ASTVisitor for Recorder {
    type State = usize;

    fn state(&self) -> usize {
        self.seen.len()
    }

    fn after_statement(state: usize, _statement: ASTStatement) -> usize {
        state
    }

    fn after_expression(state: usize, _expression: ASTExpression) -> usize {
        state
    }

    fn after_number(state: usize, _number: i64) -> usize {
        state + 1
    }

    fn visit_statement(&mut self, statement: &ASTStatement) {
        self.seen.push("statement".to_string());
        match &statement.kind {
            ASTStatementKind::Expression(e) => self.visit_expression(e),
        }
    }

    fn visit_expression(&mut self, expression: &ASTExpression) {
        match &expression.kind {
            ASTExpressionKind::Number(value) => {
                self.seen.push("literal".to_string());
                self.visit_number(value);
            }
            ASTExpressionKind::Negation(operand) => {
                self.seen.push("negation".to_string());
                self.visit_expression(operand);
            }
            ASTExpressionKind::Binary(left, operator, right) => {
                self.seen.push(format!("binary {:?}", operator));
                self.visit_expression(left);
                self.visit_expression(right);
            }
            ASTExpressionKind::Parenthesized(inner) => {
                self.seen.push("group".to_string());
                self.visit_expression(inner);
            }
        }
    }

    fn visit_number(&mut self, number: &i64) {
        self.seen.push(format!("{}", number));
    }
}

#[test]
fn renders_a_literal_statement() {
    assert_eq!(render("4"), vec!["Statement:", "  Expression:", "    Number: 4"]);
}

#[test]
fn renders_parent_before_children_and_left_before_right() {
    assert_eq!(
        render("2+3*4"),
        vec![
            "Statement:",
            "  Expression: +",
            "    Expression:",
            "      Number: 2",
            "    Expression: *",
            "      Expression:",
            "        Number: 3",
            "      Expression:",
            "        Number: 4",
        ]
    );
}

#[test]
fn renders_groups_and_negation() {
    assert_eq!(
        render("-(1-2)/3"),
        vec![
            "Statement:",
            "  Expression: /",
            "    Expression: -",
            "      Expression: ()",
            "        Expression: -",
            "          Expression:",
            "            Number: 1",
            "          Expression:",
            "            Number: 2",
            "    Expression:",
            "      Number: 3",
        ]
    );
}

#[test]
fn indentation_returns_to_its_level_after_each_statement() {
    let lines = render("(((1))) 2 (-3)");
    let statement_lines: Vec<&String> =
        lines.iter().filter(|line| line.ends_with("Statement:")).collect();
    assert_eq!(statement_lines, vec!["Statement:", "Statement:", "Statement:"]);
    assert_eq!(
        lines,
        vec![
            "Statement:",
            "  Expression: ()",
            "    Expression: ()",
            "      Expression: ()",
            "        Expression:",
            "          Number: 1",
            "Statement:",
            "  Expression:",
            "    Number: 2",
            "Statement:",
            "  Expression: ()",
            "    Expression: -",
            "      Expression:",
            "        Number: 3",
        ]
    );
}

#[test]
fn walker_can_be_used_again_at_the_same_level() {
    let mut ast = Parser::from_input("1+2").parse_program().expect("a program");
    let mut visitor = MyASTVisitor::new();
    ast.visit(&mut visitor);
    let once = visitor.lines().clone();
    ast.visit(&mut visitor);
    let twice = visitor.lines().clone();
    assert_eq!(twice.len(), 2 * once.len());
    assert_eq!(&twice[..once.len()], &once[..]);
    assert_eq!(&twice[once.len()..], &once[..]);
}

#[test]
fn one_line_for_every_node() {
    for input in ["4", "2+3*4", "(2+3)*4", "-5", "1 2 3", "-(-(1))*((2))/3-4", ""] {
        let mut ast = Parser::from_input(input).parse_program().expect("a program");
        let mut visitor = MyASTVisitor::new();
        ast.visit(&mut visitor);
        assert_eq!(visitor.lines().len(), program_nodes(&ast));
    }
}

#[test]
fn new_walker_has_written_nothing() {
    assert!(MyASTVisitor::new().lines().is_empty());
    let mut ast = Ast::new();
    let mut visitor = MyASTVisitor::new();
    ast.visit(&mut visitor);
    assert!(visitor.lines().is_empty());
}

#[test]
fn walking_leaves_the_tree_as_it_was() {
    let mut ast = Parser::from_input("1*(2+3) 4").parse_program().expect("a program");
    let before = Parser::from_input("1*(2+3) 4").parse_program().expect("a program");
    let mut visitor = MyASTVisitor::new();
    ast.visit(&mut visitor);
    assert_eq!(ast, before);
}

#[test]
fn numbers_are_written_in_decimal() {
    for value in [0, 1, 9, 10, 11, 99, 100, 12345, -1, -9, -10, -123, i64::MAX, i64::MIN, i64::MIN + 1] {
        assert_eq!(
            render_number(value),
            vec!["Statement:".to_string(), "  Expression:".to_string(), format!("    Number: {}", value)]
        );
    }
}

#[test]
fn visit_methods_write_at_the_current_level() {
    let mut visitor = MyASTVisitor::new();
    visitor.visit_number(&-42);
    visitor.visit_expression(&ASTExpression::negation(ASTExpression::number(7)));
    visitor.visit_statement(&ASTStatement::expression(ASTExpression::number(0)));
    assert_eq!(
        visitor.lines().clone(),
        vec![
            "Number: -42",
            "Expression: -",
            "  Expression:",
            "    Number: 7",
            "Statement:",
            "  Expression:",
            "    Number: 0",
        ]
    );
}

#[test]
fn every_operator_has_its_label() {
    let mut visitor = MyASTVisitor::new();
    for operator in [
        ASTBinaryOperator::Add,
        ASTBinaryOperator::Subtract,
        ASTBinaryOperator::Multiply,
        ASTBinaryOperator::Divide,
    ] {
        visitor.visit_expression(&ASTExpression::binary(
            ASTExpression::number(1),
            operator,
            ASTExpression::number(2),
        ));
    }
    let labels: Vec<&String> = visitor.lines().iter().step_by(5).collect();
    assert_eq!(labels, vec!["Expression: +", "Expression: -", "Expression: *", "Expression: /"]);
}

#[test]
fn root_hands_statements_to_any_walker_in_source_order() {
    let mut ast = Parser::from_input("1+2 (-3) 4").parse_program().expect("a program");
    let mut recorder = Recorder { seen: Vec::new() };
    ast.visit(&mut recorder);
    assert_eq!(
        recorder.seen,
        vec![
            "statement", "binary Add", "literal", "1", "literal", "2", "statement", "group",
            "negation", "literal", "3", "statement", "literal", "4",
        ]
    );
}

#[test]
fn a_minus_after_a_statement_continues_it() {
    assert_eq!(
        render("2 -3"),
        vec![
            "Statement:",
            "  Expression: -",
            "    Expression:",
            "      Number: 2",
            "    Expression:",
            "      Number: 3",
        ]
    );
}
