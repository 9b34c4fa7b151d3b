use lib::{generate_log_ir, tokenize, Expr, LogIR, Parser, Statement, Token, WasmEmitter};

fn program(code: &str) -> Vec<Statement> {
    Parser::new(tokenize(code)).parse().unwrap()
}

fn decode_sleb128(bytes: &[u8]) -> (i64, usize) {
    let mut result: i64 = 0;
    let mut shift = 0;
    let mut i = 0;
    loop {
        let b = bytes[i];
        result |= ((b & 0x7F) as i64) << shift;
        shift += 7;
        i += 1;
        if b & 0x80 == 0 {
            if b & 0x40 != 0 {
                result -= 1i64 << shift;
            }
            return (result, i);
        }
    }
}

#[test]
fn sleb128_constants_decode_back() {
    let values = [
        0, 1, -1, 63, 64, -64, -65, 127, 128, -128, -129, 8191, 8192, -8192, -8193, 624485,
        -123456, 1 << 20, -(1 << 20), i32::MAX, i32::MIN, i32::MAX - 1, i32::MIN + 1,
    ];
    let prefix_len = WasmEmitter::emit(&[]).len() - 6;
    for v in values {
        let stmts = vec![Statement::Let { name: "a".to_string(), value: Expr::Number(v) }];
        let m = WasmEmitter::emit(&stmts);
        // body: locals (3 bytes), i32.const, immediate, local.set 0, end
        let body = &m[prefix_len + 4..];
        assert_eq!(body[3], 0x41);
        let (decoded, len) = decode_sleb128(&body[4..]);
        assert_eq!(decoded, v as i64);
        assert!(len >= 1 && len <= 5);
        for b in &body[4..4 + len - 1] {
            assert!(*b >= 0x80);
        }
        assert!(body[4 + len - 1] < 0x80);
        assert_eq!(&body[4 + len..], &[0x21, 0, 0x0B]);
    }
}

#[test]
fn log_ir_blocks_are_balanced() {
    let code = "fn f() { while (a) { if (b) { c = 1; } else { if (d) { } } } } if (e) { }";
    let mut list = Vec::new();
    generate_log_ir(&program(code), &mut list);
    let mut open: i32 = 0;
    for ins in &list {
        match ins {
            LogIR::IfStart | LogIR::WhileStart => open += 1,
            LogIR::LoopEnd => open -= 1,
            LogIR::ElseStart => assert!(open >= 1),
            _ => {}
        }
        assert!(open >= 0);
    }
    assert_eq!(open, 0);
}

#[test]
fn parser_reads_back_printed_tokens() {
    // while (x < (1 + 2)) { print(x, 3); x = x - 1; }
    let tokens = vec![
        Token::While,
        Token::OpenParen,
        Token::Identifier("x".to_string()),
        Token::Less,
        Token::OpenParen,
        Token::Number(1),
        Token::Plus,
        Token::Number(2),
        Token::CloseParen,
        Token::CloseParen,
        Token::OpenBrace,
        Token::Identifier("print".to_string()),
        Token::OpenParen,
        Token::Identifier("x".to_string()),
        Token::Comma,
        Token::Number(3),
        Token::CloseParen,
        Token::Semicolon,
        Token::Identifier("x".to_string()),
        Token::Assign,
        Token::Identifier("x".to_string()),
        Token::Minus,
        Token::Number(1),
        Token::Semicolon,
        Token::CloseBrace,
    ];
    let x = || Expr::Variable("x".to_string());
    let expected = vec![Statement::While {
        condition: Expr::BinaryOp {
            left: Box::new(x()),
            op: "<".to_string(),
            right: Box::new(Expr::BinaryOp {
                left: Box::new(Expr::Number(1)),
                op: "+".to_string(),
                right: Box::new(Expr::Number(2)),
            }),
        },
        body: vec![
            Statement::Expression(Expr::Call {
                name: "print".to_string(),
                args: vec![x(), Expr::Number(3)],
            }),
            Statement::Assign {
                name: "x".to_string(),
                value: Expr::BinaryOp {
                    left: Box::new(x()),
                    op: "-".to_string(),
                    right: Box::new(Expr::Number(1)),
                },
            },
        ],
    }];
    let mut parser = Parser::new(tokens);
    assert_eq!(parser.parse(), Ok(expected));
    assert_eq!(parser.parse(), Ok(vec![]));
}

#[test]
fn lexer_gives_no_negative_numbers_and_no_keyword_identifiers() {
    for t in tokenize("let x = -5; fn while_ 0 if else while") {
        match t {
            Token::Number(n) => assert!(n >= 0),
            Token::Identifier(w) => {
                assert!(!w.is_empty());
                assert!(!["fn", "let", "if", "else", "while"].contains(&w.as_str()));
            }
            _ => {}
        }
    }
}

#[test]
fn clone_gives_an_equal_tree() {
    let e = Expr::Call {
        name: "f".to_string(),
        args: vec![
            Expr::Number(-3),
            Expr::BinaryOp {
                left: Box::new(Expr::Variable("a".to_string())),
                op: "<=".to_string(),
                right: Box::new(Expr::Number(7)),
            },
        ],
    };
    assert_eq!(e.clone(), e);
    let s = Statement::If {
        condition: e.clone(),
        then_branch: vec![Statement::Let { name: "x".to_string(), value: e.clone() }],
        else_branch: Some(vec![Statement::While {
            condition: Expr::Variable("x".to_string()),
            body: vec![Statement::Function { name: "g".to_string(), body: vec![] }],
        }]),
    };
    assert_eq!(s.clone(), s);
}

#[test]
fn blank_between_texts_splits_their_tokens() {
    let a = "let x=1;if(x<2)";
    let b = "{y = x+1;}";
    for w in [' ', '\t', '\n', '\r'] {
        let mut expected = tokenize(a);
        expected.extend(tokenize(b));
        assert_eq!(tokenize(&format!("{}{}{}", a, w, b)), expected);
    }
    // a word and a number on either side stay apart
    assert_eq!(
        tokenize("abc 123"),
        vec![Token::Identifier("abc".to_string()), Token::Number(123)]
    );
    assert_eq!(
        tokenize("abc123"),
        vec![Token::Identifier("abc123".to_string())]
    );
}

#[test]
fn unknown_character_acts_as_blank() {
    for c in ['@', '#', '$', '.', '?', '*', '/', '%', '[', ']', '"', '\u{2200}'] {
        let with_char = format!("foo{}bar 1{}2 <{}=", c, c, c);
        let with_space = "foo bar 1 2 < =".to_string();
        assert_eq!(tokenize(&with_char), tokenize(&with_space));
    }
    assert_eq!(
        tokenize("a@b"),
        vec![Token::Identifier("a".to_string()), Token::Identifier("b".to_string())]
    );
}

#[test]
fn function_declarations_leave_the_module_unchanged() {
    let f = Statement::Function {
        name: "f".to_string(),
        body: vec![Statement::Let { name: "z".to_string(), value: Expr::Number(9) }],
    };
    assert_eq!(WasmEmitter::emit(&[f]), WasmEmitter::emit(&[]));
    let with_functions = program(
        "let a = 1; fn f() { let q = 2; } while (a < 3) { fn g() { } a = a + 1; } \
         if (a) { fn h() { } } else { fn k() { let r = 4; } }",
    );
    let without = program("let a = 1; while (a < 3) { a = a + 1; } if (a) { } else { }");
    assert_eq!(WasmEmitter::emit(&with_functions), WasmEmitter::emit(&without));
}

#[test]
fn parsing_concatenated_tokens_parses_each_part() {
    let t1 = tokenize("let x = 1; if (x) { x = 2; }");
    let t2 = tokenize("while (x < 3) { x = x + 1; } print(x);");
    let mut both = t1.clone();
    both.extend(t2.clone());
    let mut expected = Parser::new(t1).parse().unwrap();
    expected.extend(Parser::new(t2.clone()).parse().unwrap());
    assert_eq!(Parser::new(both).parse(), Ok(expected));
    // an error in the second part is the error of the second part alone
    let t3 = tokenize("x = ;");
    let mut bad = tokenize("let y = 0;");
    bad.extend(t3.clone());
    assert_eq!(Parser::new(bad).parse(), Parser::new(t3).parse());
    // an `else` right after an `if` belongs to it
    let t4 = tokenize("if (x) { }");
    let t5 = tokenize("else { y = 1; }");
    let mut joined = t4.clone();
    joined.extend(t5.clone());
    assert!(Parser::new(joined).parse().is_ok());
    assert!(Parser::new(t5).parse().is_err());
}
