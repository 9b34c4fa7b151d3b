use lib::{tokenize, try_tokenize, LexError, Token};

fn ident(s: &str) -> Token {
    Token::Identifier(s.to_string())
}

#[test]
fn tokenize_let_statement() {
    assert_eq!(
        tokenize("let x = 5;"),
        vec![Token::Let, ident("x"), Token::Assign, Token::Number(5), Token::Semicolon]
    );
}

#[test]
fn tokenize_keywords() {
    assert_eq!(
        tokenize("fn let if else while"),
        vec![Token::Fn, Token::Let, Token::If, Token::Else, Token::While]
    );
}

#[test]
fn tokenize_keyword_prefixes_are_identifiers() {
    assert_eq!(
        tokenize("fnx lets iff else_ whiles"),
        vec![ident("fnx"), ident("lets"), ident("iff"), ident("else_"), ident("whiles")]
    );
}

#[test]
fn tokenize_operators() {
    assert_eq!(
        tokenize("< <= > >= = == != + -"),
        vec![
            Token::Less,
            Token::LessEqual,
            Token::Greater,
            Token::GreaterEqual,
            Token::Assign,
            Token::Equal,
            Token::NotEqual,
            Token::Plus,
            Token::Minus,
        ]
    );
}

#[test]
fn tokenize_two_char_operators_take_the_first_equals() {
    assert_eq!(tokenize("==="), vec![Token::Equal, Token::Assign]);
    assert_eq!(tokenize("<=="), vec![Token::LessEqual, Token::Assign]);
    assert_eq!(tokenize("!=="), vec![Token::NotEqual, Token::Assign]);
}

#[test]
fn tokenize_punctuation() {
    assert_eq!(
        tokenize("{}(),;"),
        vec![
            Token::OpenBrace,
            Token::CloseBrace,
            Token::OpenParen,
            Token::CloseParen,
            Token::Comma,
            Token::Semicolon,
        ]
    );
}

#[test]
fn tokenize_skips_blanks_and_unknown_characters() {
    assert_eq!(tokenize(" \t\r\n"), vec![]);
    assert_eq!(tokenize("a # b @ $ 1"), vec![ident("a"), ident("b"), Token::Number(1)]);
    assert_eq!(tokenize(""), vec![]);
}

#[test]
fn tokenize_identifiers_with_digits_and_underscores() {
    assert_eq!(
        tokenize("_a1 b_2c x9"),
        vec![ident("_a1"), ident("b_2c"), ident("x9")]
    );
}

#[test]
fn tokenize_unicode_identifiers() {
    assert_eq!(tokenize("héllo"), vec![ident("héllo")]);
    assert_eq!(tokenize("x² = 1"), vec![ident("x²"), Token::Assign, Token::Number(1)]);
}

#[test]
fn tokenize_numbers() {
    assert_eq!(tokenize("0 007 2147483647"), vec![Token::Number(0), Token::Number(7), Token::Number(2147483647)]);
    assert_eq!(tokenize("12ab"), vec![Token::Number(12), ident("ab")]);
    assert_eq!(tokenize("-3"), vec![Token::Minus, Token::Number(3)]);
}

#[test]
fn tokenize_long_digit_run_inside_identifier() {
    assert_eq!(tokenize("a99999999999"), vec![ident("a99999999999")]);
}

#[test]
fn try_tokenize_reports_lone_bang() {
    assert_eq!(try_tokenize("a ! b"), Err(LexError::UnexpectedBang(2)));
    assert_eq!(try_tokenize("x !"), Err(LexError::UnexpectedBang(2)));
}

#[test]
fn try_tokenize_reports_number_too_large() {
    assert_eq!(try_tokenize("x = 2147483648;"), Err(LexError::NumberTooLarge(4)));
    assert_eq!(try_tokenize("99999999999999999999999"), Err(LexError::NumberTooLarge(0)));
}

#[test]
fn try_tokenize_reports_the_first_error() {
    assert_eq!(try_tokenize("! 99999999999"), Err(LexError::UnexpectedBang(0)));
    assert_eq!(try_tokenize("99999999999 !"), Err(LexError::NumberTooLarge(0)));
}

#[test]
fn try_tokenize_agrees_with_tokenize() {
    let code = "fn main() { let a = 1; while (a < 10) { a = a + 1; } }";
    assert_eq!(try_tokenize(code), Ok(tokenize(code)));
}
