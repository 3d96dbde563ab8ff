use meow_compiler::ast::lexer::{Lexer, TextSpan, Token, TokenKind};

fn tokenize(input: &str) -> Vec<Token> {
    let mut lexer = Lexer::new(input);
    let mut tokens = Vec::new();
    while let Some(token) = lexer.next_token() {
        tokens.push(token);
    }
    tokens
}

fn kinds(input: &str) -> Vec<TokenKind> {
    tokenize(input).into_iter().map(|token| token.kind).collect()
}

fn spans(input: &str) -> Vec<(usize, usize)> {
    tokenize(input).into_iter().map(|token| (token.span.start, token.span.end)).collect()
}

fn covered(input: &str) -> String {
    let mut text = String::new();
    for token in tokenize(input) {
        text.push_str(&input[token.span.start..token.span.end]);
    }
    text
}

#[test]
fn empty_input_yields_one_eof_then_exhaustion() {
    let mut lexer = Lexer::new("");
    let first = lexer.next_token();
    assert_eq!(first, Some(Token::new(TokenKind::Eof, TextSpan::new(0, 0))));
    assert_eq!(lexer.next_token(), None);
    assert_eq!(lexer.next_token(), None);
}

#[test]
fn exhaustion_is_permanent_after_eof() {
    let mut lexer = Lexer::new("7");
    assert_eq!(lexer.next_token().map(|t| t.kind), Some(TokenKind::Number(7)));
    assert_eq!(lexer.next_token().map(|t| t.kind), Some(TokenKind::Eof));
    for _ in 0..5 {
        assert_eq!(lexer.next_token(), None);
    }
}

#[test]
fn single_digit_number() {
    assert_eq!(kinds("4"), vec![TokenKind::Number(4), TokenKind::Eof]);
    assert_eq!(spans("4"), vec![(0, 1), (1, 1)]);
}

#[test]
fn number_plus_number() {
    assert_eq!(
        kinds("12+3"),
        vec![TokenKind::Number(12), TokenKind::Plus, TokenKind::Number(3), TokenKind::Eof]
    );
    assert_eq!(spans("12+3"), vec![(0, 2), (2, 3), (3, 4), (4, 4)]);
    assert_eq!(covered("12+3"), "12+3");
}

#[test]
fn spans_of_dense_input_tile_the_input() {
    let input = "(1+23)*456/-7@9";
    let all = spans(input);
    let mut expected_start = 0;
    for (start, end) in &all {
        assert_eq!(*start, expected_start);
        assert!(start <= end);
        expected_start = *end;
    }
    assert_eq!(expected_start, input.len());
    assert_eq!(covered(input), input);
}

#[test]
fn unrecognized_character_becomes_bad_token() {
    assert_eq!(kinds("@"), vec![TokenKind::Bad("@".to_string()), TokenKind::Eof]);
    assert_eq!(spans("@"), vec![(0, 1), (1, 1)]);
}

#[test]
fn bad_token_does_not_stall_the_cursor() {
    assert_eq!(
        kinds("@@1"),
        vec![
            TokenKind::Bad("@".to_string()),
            TokenKind::Bad("@".to_string()),
            TokenKind::Number(1),
            TokenKind::Eof
        ]
    );
    assert_eq!(spans("@@1"), vec![(0, 1), (1, 2), (2, 3), (3, 3)]);
}

#[test]
fn every_symbol_is_one_token() {
    assert_eq!(
        kinds("+-*/()"),
        vec![
            TokenKind::Plus,
            TokenKind::Minus,
            TokenKind::Asterisk,
            TokenKind::Slash,
            TokenKind::LeftParen,
            TokenKind::RightParen,
            TokenKind::Eof
        ]
    );
    assert_eq!(spans("+-*/()"), vec![(0, 1), (1, 2), (2, 3), (3, 4), (4, 5), (5, 6), (6, 6)]);
}

#[test]
fn whitespace_between_tokens_is_skipped() {
    assert_eq!(
        kinds("4 + 5"),
        vec![TokenKind::Number(4), TokenKind::Plus, TokenKind::Number(5), TokenKind::Eof]
    );
    assert_eq!(spans("4 + 5"), vec![(0, 1), (2, 3), (4, 5), (5, 5)]);
    assert_eq!(covered("4 + 5"), "4+5");
}

#[test]
fn all_whitespace_kinds_are_skipped() {
    assert_eq!(kinds(" \t\n\r\x0c1"), vec![TokenKind::Number(1), TokenKind::Eof]);
    assert_eq!(spans(" \t\n\r\x0c1"), vec![(5, 6), (6, 6)]);
}

#[test]
fn only_whitespace_yields_eof_at_the_end() {
    assert_eq!(kinds("   "), vec![TokenKind::Eof]);
    assert_eq!(spans("   "), vec![(3, 3)]);
}

#[test]
fn trailing_whitespace_is_left_before_eof() {
    assert_eq!(spans("1  "), vec![(0, 1), (3, 3)]);
}

#[test]
fn vertical_tab_is_not_whitespace() {
    assert_eq!(
        kinds("\x0b"),
        vec![TokenKind::Bad("\x0b".to_string()), TokenKind::Eof]
    );
}

#[test]
fn digit_run_is_maximal() {
    assert_eq!(kinds("0012"), vec![TokenKind::Number(12), TokenKind::Eof]);
    assert_eq!(spans("0012"), vec![(0, 4), (4, 4)]);
    assert_eq!(
        kinds("12 34"),
        vec![TokenKind::Number(12), TokenKind::Number(34), TokenKind::Eof]
    );
}

#[test]
fn largest_literal_is_kept() {
    assert_eq!(
        kinds("9223372036854775807"),
        vec![TokenKind::Number(i64::MAX), TokenKind::Eof]
    );
}

#[test]
fn literal_out_of_range_falls_back_to_zero() {
    assert_eq!(kinds("9223372036854775808"), vec![TokenKind::Number(0), TokenKind::Eof]);
    assert_eq!(spans("9223372036854775808"), vec![(0, 19), (19, 19)]);
    assert_eq!(
        kinds("99999999999999999999999999+1"),
        vec![TokenKind::Number(0), TokenKind::Plus, TokenKind::Number(1), TokenKind::Eof]
    );
    assert_eq!(
        kinds("92233720368547758070"),
        vec![TokenKind::Number(0), TokenKind::Eof]
    );
}

#[test]
fn literal_agrees_with_the_standard_parser() {
    for text in ["0", "7", "10", "123456789", "000", "9223372036854775806", "18446744073709551616"] {
        let expected = text.parse::<i64>().unwrap_or(0);
        assert_eq!(kinds(text), vec![TokenKind::Number(expected), TokenKind::Eof]);
    }
}

#[test]
fn character_of_several_bytes_is_one_bad_token() {
    assert_eq!(
        kinds("1é2"),
        vec![
            TokenKind::Number(1),
            TokenKind::Bad("é".to_string()),
            TokenKind::Number(2),
            TokenKind::Eof
        ]
    );
    assert_eq!(spans("1é2"), vec![(0, 1), (1, 3), (3, 4), (4, 4)]);
    assert_eq!(kinds("€"), vec![TokenKind::Bad("€".to_string()), TokenKind::Eof]);
    assert_eq!(spans("€"), vec![(0, 3), (3, 3)]);
    assert_eq!(kinds("𝄞+"), vec![TokenKind::Bad("𝄞".to_string()), TokenKind::Plus, TokenKind::Eof]);
    assert_eq!(spans("𝄞+"), vec![(0, 4), (4, 5), (5, 5)]);
    assert_eq!(covered("1é2€𝄞"), "1é2€𝄞");
}

#[test]
fn letters_are_bad_tokens() {
    assert_eq!(
        kinds("a1"),
        vec![TokenKind::Bad("a".to_string()), TokenKind::Number(1), TokenKind::Eof]
    );
}

#[test]
fn spans_never_decrease() {
    let all = spans(" 1 +  (22*3) / @ - 4 ");
    let mut previous_end = 0;
    for (start, end) in all {
        assert!(previous_end <= start);
        assert!(start <= end);
        previous_end = end;
    }
}

#[test]
fn text_span_length() {
    assert_eq!(TextSpan::new(3, 10).length(), 7);
    assert_eq!(TextSpan::new(5, 5).length(), 0);
    let span = TextSpan::new(2, 4);
    assert_eq!((span.start, span.end), (2, 4));
}

#[test]
fn token_new_keeps_its_parts() {
    let token = Token::new(TokenKind::Slash, TextSpan::new(1, 2));
    assert_eq!(token.kind, TokenKind::Slash);
    assert_eq!(token.span, TextSpan::new(1, 2));
}
