use lib::{tokenize, Expr, ParseError, Parser, Statement, Token};

fn num(n: i32) -> Expr {
    Expr::Number(n)
}

fn var(s: &str) -> Expr {
    Expr::Variable(s.to_string())
}

fn bin(l: Expr, op: &str, r: Expr) -> Expr {
    Expr::BinaryOp { left: Box::new(l), op: op.to_string(), right: Box::new(r) }
}

fn call(name: &str, args: Vec<Expr>) -> Expr {
    Expr::Call { name: name.to_string(), args }
}

fn parse(code: &str) -> Result<Vec<Statement>, ParseError> {
    Parser::new(tokenize(code)).parse()
}

#[test]
fn parse_empty_program() {
    assert_eq!(parse(""), Ok(vec![]));
}

#[test]
fn parse_let_and_assign() {
    assert_eq!(
        parse("let x = 1; x = x + 2;"),
        Ok(vec![
            Statement::Let { name: "x".to_string(), value: num(1) },
            Statement::Assign { name: "x".to_string(), value: bin(var("x"), "+", num(2)) },
        ])
    );
}

#[test]
fn parse_operators_fold_to_the_left() {
    assert_eq!(
        parse("let y = 1 - 2 + 3 < 4;"),
        Ok(vec![Statement::Let {
            name: "y".to_string(),
            value: bin(bin(bin(num(1), "-", num(2)), "+", num(3)), "<", num(4)),
        }])
    );
}

#[test]
fn parse_parentheses_group() {
    assert_eq!(
        parse("let y = 1 - (2 + 3);"),
        Ok(vec![Statement::Let {
            name: "y".to_string(),
            value: bin(num(1), "-", bin(num(2), "+", num(3))),
        }])
    );
}

#[test]
fn parse_every_operator() {
    for (src, op) in [("==", "=="), ("!=", "!="), ("<=", "<="), (">=", ">="), (">", ">"), ("<", "<")] {
        let code = format!("let b = a {} c;", src);
        assert_eq!(
            parse(&code),
            Ok(vec![Statement::Let { name: "b".to_string(), value: bin(var("a"), op, var("c")) }])
        );
    }
}

#[test]
fn parse_calls() {
    assert_eq!(
        parse("print(1); f(); g(a, h(b), 3 + 4);"),
        Ok(vec![
            Statement::Expression(call("print", vec![num(1)])),
            Statement::Expression(call("f", vec![])),
            Statement::Expression(call(
                "g",
                vec![var("a"), call("h", vec![var("b")]), bin(num(3), "+", num(4))]
            )),
        ])
    );
}

#[test]
fn parse_if_else_and_while() {
    assert_eq!(
        parse("if (a < 1) { a = 1; } else { a = 2; } while (a) { print(a); } if (b) { }"),
        Ok(vec![
            Statement::If {
                condition: bin(var("a"), "<", num(1)),
                then_branch: vec![Statement::Assign { name: "a".to_string(), value: num(1) }],
                else_branch: Some(vec![Statement::Assign { name: "a".to_string(), value: num(2) }]),
            },
            Statement::While {
                condition: var("a"),
                body: vec![Statement::Expression(call("print", vec![var("a")]))],
            },
            Statement::If { condition: var("b"), then_branch: vec![], else_branch: None },
        ])
    );
}

#[test]
fn parse_function() {
    assert_eq!(
        parse("fn main() { let a = 1; fn inner() { } }"),
        Ok(vec![Statement::Function {
            name: "main".to_string(),
            body: vec![
                Statement::Let { name: "a".to_string(), value: num(1) },
                Statement::Function { name: "inner".to_string(), body: vec![] },
            ],
        }])
    );
}

#[test]
fn parse_error_expected_token() {
    assert_eq!(
        parse("let x = 1"),
        Err(ParseError::UnexpectedEnd)
    );
    assert_eq!(
        parse("let x 1;"),
        Err(ParseError::Expected { expected: Token::Assign, found: Token::Number(1) })
    );
    assert_eq!(
        parse("if a { }"),
        Err(ParseError::Expected { expected: Token::OpenParen, found: Token::Identifier("a".to_string()) })
    );
}

#[test]
fn parse_error_names() {
    assert_eq!(parse("let 1 = 2;"), Err(ParseError::ExpectedVariableName));
    assert_eq!(parse("let"), Err(ParseError::ExpectedVariableName));
    assert_eq!(parse("fn () { }"), Err(ParseError::ExpectedFunctionName));
}

#[test]
fn parse_error_arguments() {
    assert_eq!(parse("f(1 2);"), Err(ParseError::ExpectedCloseParenOrComma));
    assert_eq!(parse("f(1,);"), Err(ParseError::ExpectedExpression(Some(Token::CloseParen))));
}

#[test]
fn parse_error_statements() {
    assert_eq!(parse("x;"), Err(ParseError::UnexpectedAfterIdentifier(Some(Token::Semicolon))));
    assert_eq!(parse("x"), Err(ParseError::UnexpectedAfterIdentifier(None)));
    assert_eq!(parse("5;"), Err(ParseError::UnknownStatement(Some(Token::Number(5)))));
    assert_eq!(parse("}"), Err(ParseError::UnknownStatement(Some(Token::CloseBrace))));
    assert_eq!(parse("let x = ;"), Err(ParseError::ExpectedExpression(Some(Token::Semicolon))));
    assert_eq!(parse("let x = "), Err(ParseError::ExpectedExpression(None)));
}

#[test]
fn parse_error_unclosed_block() {
    assert_eq!(parse("while (a) { a = 1;"), Err(ParseError::UnexpectedEnd));
}

#[test]
fn parse_starts_from_a_new_parser_each_time() {
    let mut parser = Parser::new(tokenize("let a = 1;"));
    assert_eq!(
        parser.parse(),
        Ok(vec![Statement::Let { name: "a".to_string(), value: num(1) }])
    );
    // every token has been read: a second call finds nothing more
    assert_eq!(parser.parse(), Ok(vec![]));
}
