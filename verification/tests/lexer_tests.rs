use lexer::BooleanType;
use lexer::LexError;
use lexer::Lexer;
use lexer::OperatorType;
use lexer::TokenType;

fn scan(input: &str) -> Vec<TokenType> {
    let mut lexer = Lexer::new(input);
    lexer.exec().expect("scan should succeed")
}

fn ident(s: &str) -> TokenType {
    TokenType::Identifier(s.to_string())
}

#[test]
fn lexer_test() {
    let mut lexer = Lexer::new("let num = 3 in num * num");
    let tokens = lexer.exec().expect("scan should succeed");
    assert_eq!(
        tokens,
        vec![
            TokenType::Let,
            ident("num"),
            TokenType::Assignment,
            TokenType::Number(3),
            TokenType::In,
            ident("num"),
            TokenType::Operator(OperatorType::Asterisk),
            ident("num"),
            TokenType::EOF,
        ]
    );
}

#[test]
fn empty_input_yields_only_eof() {
    assert_eq!(scan(""), vec![TokenType::EOF]);
}

#[test]
fn whitespace_only_yields_only_eof() {
    assert_eq!(scan(" \t\n  \r "), vec![TokenType::EOF]);
}

#[test]
fn one_char_operators() {
    assert_eq!(
        scan("+ - * /"),
        vec![
            TokenType::Operator(OperatorType::Plus),
            TokenType::Operator(OperatorType::Minus),
            TokenType::Operator(OperatorType::Asterisk),
            TokenType::Operator(OperatorType::Slash),
            TokenType::EOF,
        ]
    );
}

#[test]
fn less_than() {
    assert_eq!(
        scan("<"),
        vec![TokenType::Operator(OperatorType::Lt), TokenType::EOF]
    );
}

#[test]
fn less_or_equal() {
    assert_eq!(
        scan("<="),
        vec![TokenType::Operator(OperatorType::Ltoeq), TokenType::EOF]
    );
}

#[test]
fn greater_than() {
    assert_eq!(
        scan(">"),
        vec![TokenType::Operator(OperatorType::Gt), TokenType::EOF]
    );
}

#[test]
fn greater_or_equal() {
    assert_eq!(
        scan(">="),
        vec![TokenType::Operator(OperatorType::Gtoeq), TokenType::EOF]
    );
}

#[test]
fn bare_equal_is_assignment() {
    assert_eq!(scan("="), vec![TokenType::Assignment, TokenType::EOF]);
}

#[test]
fn double_equal_is_operator() {
    assert_eq!(
        scan("=="),
        vec![TokenType::Operator(OperatorType::Equal), TokenType::EOF]
    );
}

#[test]
fn triple_equal_is_operator_then_assignment() {
    assert_eq!(
        scan("==="),
        vec![
            TokenType::Operator(OperatorType::Equal),
            TokenType::Assignment,
            TokenType::EOF,
        ]
    );
}

#[test]
fn keyword_true() {
    assert_eq!(
        scan("true"),
        vec![TokenType::Boolean(BooleanType::True), TokenType::EOF]
    );
}

#[test]
fn keyword_false() {
    assert_eq!(
        scan("false"),
        vec![TokenType::Boolean(BooleanType::False), TokenType::EOF]
    );
}

#[test]
fn keyword_let() {
    assert_eq!(scan("let"), vec![TokenType::Let, TokenType::EOF]);
}

#[test]
fn keyword_in() {
    assert_eq!(scan("in"), vec![TokenType::In, TokenType::EOF]);
}

#[test]
fn keyword_prefix_stays_identifier() {
    assert_eq!(scan("lettuce"), vec![ident("lettuce"), TokenType::EOF]);
    assert_eq!(scan("truex"), vec![ident("truex"), TokenType::EOF]);
}

#[test]
fn digit_run_is_one_number() {
    assert_eq!(scan("123"), vec![TokenType::Number(123), TokenType::EOF]);
}

#[test]
fn leading_zeros_accumulate() {
    assert_eq!(scan("007"), vec![TokenType::Number(7), TokenType::EOF]);
}

#[test]
fn largest_number_fits() {
    let max = usize::MAX.to_string();
    assert_eq!(
        scan(&max),
        vec![TokenType::Number(usize::MAX), TokenType::EOF]
    );
}

#[test]
fn numeric_overflow_is_reported() {
    let too_big = format!("{}9", usize::MAX);
    let mut lexer = Lexer::new(&too_big);
    assert_eq!(lexer.exec(), Err(LexError::NumericOverflow));
}

#[test]
fn identifier_keeps_trailing_digits() {
    assert_eq!(scan("x1"), vec![ident("x1"), TokenType::EOF]);
}

#[test]
fn digit_then_letter_splits() {
    assert_eq!(
        scan("1x"),
        vec![TokenType::Number(1), ident("x"), TokenType::EOF]
    );
}

#[test]
fn comparison_with_spaces() {
    assert_eq!(
        scan("a <= b"),
        vec![
            ident("a"),
            TokenType::Operator(OperatorType::Ltoeq),
            ident("b"),
            TokenType::EOF,
        ]
    );
}

#[test]
fn comparison_without_spaces() {
    assert_eq!(
        scan("a<=b"),
        vec![
            ident("a"),
            TokenType::Operator(OperatorType::Ltoeq),
            ident("b"),
            TokenType::EOF,
        ]
    );
}

#[test]
fn equality_expression() {
    assert_eq!(
        scan("x == 10"),
        vec![
            ident("x"),
            TokenType::Operator(OperatorType::Equal),
            TokenType::Number(10),
            TokenType::EOF,
        ]
    );
}
