use lib::emit::can_emit;
use lib::{compile, tokenize, CompileError, Expr, LexError, ParseError, Parser, Statement, WasmEmitter};

fn program(code: &str) -> Vec<Statement> {
    Parser::new(tokenize(code)).parse().unwrap()
}

fn module_prefix() -> Vec<u8> {
    let mut m = vec![0x00, 0x61, 0x73, 0x6D, 0x01, 0x00, 0x00, 0x00];
    m.extend_from_slice(&[1, 20, 4]);
    m.extend_from_slice(&[0x60, 0x01, 0x7F, 0x00]);
    m.extend_from_slice(&[0x60, 0x01, 0x7F, 0x01, 0x7F]);
    m.extend_from_slice(&[0x60, 0x03, 0x7F, 0x7F, 0x7F, 0x01, 0x7F]);
    m.extend_from_slice(&[0x60, 0x00, 0x00]);
    m.extend_from_slice(&[2, 58, 4]);
    for (name, ty) in [("print", 0u8), ("read_file", 1), ("write_file", 2), ("alloc", 1)] {
        m.extend_from_slice(&[3, b'e', b'n', b'v', name.len() as u8]);
        m.extend_from_slice(name.as_bytes());
        m.extend_from_slice(&[0, ty]);
    }
    m.extend_from_slice(&[3, 2, 1, 3]);
    m.extend_from_slice(&[5, 3, 1, 0, 1]);
    m.extend_from_slice(&[7, 17, 2, 6]);
    m.extend_from_slice(b"memory");
    m.extend_from_slice(&[2, 0, 4]);
    m.extend_from_slice(b"main");
    m.extend_from_slice(&[0, 4]);
    m
}

fn module(body: &[u8]) -> Vec<u8> {
    let mut m = module_prefix();
    m.extend_from_slice(&[10, (body.len() + 2) as u8, 1, body.len() as u8]);
    m.extend_from_slice(body);
    m
}

fn emit(code: &str) -> Vec<u8> {
    WasmEmitter::emit(&program(code))
}

#[test]
fn emit_empty_program() {
    assert_eq!(emit(""), module(&[0x00, 0x0B]));
}

#[test]
fn emit_header_and_sections() {
    let m = emit("");
    assert_eq!(&m[0..8], &[0x00, 0x61, 0x73, 0x6D, 0x01, 0x00, 0x00, 0x00]);
    assert_eq!(m.len(), module_prefix().len() + 6);
}

#[test]
fn emit_let() {
    assert_eq!(emit("let x = 5;"), module(&[1, 1, 0x7F, 0x41, 5, 0x21, 0, 0x0B]));
}

#[test]
fn emit_repeated_let_reuses_the_local() {
    assert_eq!(
        emit("let a = 1; let b = 2; let a = 3;"),
        module(&[1, 2, 0x7F, 0x41, 1, 0x21, 0, 0x41, 2, 0x21, 1, 0x41, 3, 0x21, 0, 0x0B])
    );
}

#[test]
fn emit_sleb128_constants() {
    assert_eq!(emit("let a = 624485;"), module(&[1, 1, 0x7F, 0x41, 0xE5, 0x8E, 0x26, 0x21, 0, 0x0B]));
    assert_eq!(emit("let a = 64;"), module(&[1, 1, 0x7F, 0x41, 0xC0, 0x00, 0x21, 0, 0x0B]));
    assert_eq!(emit("let a = 63;"), module(&[1, 1, 0x7F, 0x41, 0x3F, 0x21, 0, 0x0B]));
    assert_eq!(
        emit("let a = 2147483647;"),
        module(&[1, 1, 0x7F, 0x41, 0xFF, 0xFF, 0xFF, 0xFF, 0x07, 0x21, 0, 0x0B])
    );
}

fn let_number(n: i32) -> Vec<Statement> {
    vec![Statement::Let { name: "a".to_string(), value: Expr::Number(n) }]
}

#[test]
fn emit_sleb128_negative_constants() {
    let cases: [(i32, &[u8]); 5] = [
        (-1, &[0x7F]),
        (-64, &[0x40]),
        (-65, &[0xBF, 0x7F]),
        (-123456, &[0xC0, 0xBB, 0x78]),
        (i32::MIN, &[0x80, 0x80, 0x80, 0x80, 0x78]),
    ];
    for (n, enc) in cases {
        let mut body = vec![1, 1, 0x7F, 0x41];
        body.extend_from_slice(enc);
        body.extend_from_slice(&[0x21, 0, 0x0B]);
        assert_eq!(WasmEmitter::emit(&let_number(n)), module(&body));
    }
}

#[test]
fn emit_calls_and_drops() {
    assert_eq!(
        emit("let a = 1; read_file(a); print(a); write_file(a, a, a); alloc(a); foo(a);"),
        module(&[
            1, 1, 0x7F, 0x41, 1, 0x21, 0, //
            0x20, 0, 0x10, 1, 0x1A, //
            0x20, 0, 0x10, 0, //
            0x20, 0, 0x20, 0, 0x20, 0, 0x10, 2, //
            0x20, 0, 0x10, 3, 0x1A, //
            0x20, 0, 0x10, 0, //
            0x0B,
        ])
    );
}

#[test]
fn emit_memory_builtins() {
    assert_eq!(
        emit("store_byte(0, load_byte(1)); load_byte(5);"),
        module(&[
            0, 0x41, 0, 0x41, 1, 0x2D, 0, 0, 0x3A, 0, 0, //
            0x41, 5, 0x2D, 0, 0, 0x1A, //
            0x0B,
        ])
    );
}

#[test]
fn emit_while() {
    assert_eq!(
        emit("let i = 0; while (i < 3) { i = i + 1; }"),
        module(&[
            1, 1, 0x7F, 0x41, 0, 0x21, 0, //
            0x02, 0x40, 0x03, 0x40, 0x20, 0, 0x41, 3, 0x48, 0x45, 0x0D, 0x01, //
            0x20, 0, 0x41, 1, 0x6A, 0x21, 0, //
            0x0C, 0x00, 0x0B, 0x0B, //
            0x0B,
        ])
    );
}

#[test]
fn emit_if_else_and_operators() {
    assert_eq!(
        emit("let a = 1; if (a == 1) { a = 2; } else { a = a - 3; }"),
        module(&[
            1, 1, 0x7F, 0x41, 1, 0x21, 0, //
            0x20, 0, 0x41, 1, 0x46, 0x04, 0x40, //
            0x41, 2, 0x21, 0, 0x05, 0x20, 0, 0x41, 3, 0x6B, 0x21, 0, 0x0B, //
            0x0B,
        ])
    );
    assert_eq!(
        emit("let a = 1 != 2; a = 1 > 2; a = 1 <= 2; a = 1 >= 2;"),
        module(&[
            1, 1, 0x7F, //
            0x41, 1, 0x41, 2, 0x47, 0x21, 0, //
            0x41, 1, 0x41, 2, 0x4A, 0x21, 0, //
            0x41, 1, 0x41, 2, 0x4C, 0x21, 0, //
            0x41, 1, 0x41, 2, 0x4E, 0x21, 0, //
            0x0B,
        ])
    );
}

#[test]
fn emit_skips_function_declarations() {
    assert_eq!(
        emit("fn main() { let z = 1; print(z); } let a = 2;"),
        module(&[1, 1, 0x7F, 0x41, 2, 0x21, 0, 0x0B])
    );
}

#[test]
fn emit_locals_inside_blocks() {
    assert_eq!(
        emit("if (1) { let a = 1; } else { let b = 2; } while (0) { let c = 3; }"),
        module(&[
            1, 3, 0x7F, //
            0x41, 1, 0x04, 0x40, 0x41, 1, 0x21, 0, 0x05, 0x41, 2, 0x21, 1, 0x0B, //
            0x02, 0x40, 0x03, 0x40, 0x41, 0, 0x45, 0x0D, 0x01, 0x41, 3, 0x21, 2, 0x0C, 0x00, 0x0B, 0x0B, //
            0x0B,
        ])
    );
}

#[test]
fn emit_section_size_taken_modulo_256() {
    let code = "print(1);".repeat(100);
    let mut body = vec![0];
    for _ in 0..100 {
        body.extend_from_slice(&[0x41, 1, 0x10, 0]);
    }
    body.push(0x0B);
    assert_eq!(body.len(), 402);
    let m = emit(&code);
    assert_eq!(m, module(&body));
    let at = module_prefix().len();
    assert_eq!(m[at + 1], (404 % 256) as u8);
    assert_eq!(m[at + 3], (402 % 256) as u8);
}

#[test]
fn emit_check() {
    assert!(can_emit(&program("let a = 1; a = a + 1; print(a);")));
    assert!(!can_emit(&program("x = 1;")));
    assert!(!can_emit(&program("print(y);")));
    assert!(!can_emit(&program("load_byte();")));
    assert!(can_emit(&program("fn f() { q = 1; }")));
    assert!(can_emit(&program("print(a); let a = 1;")));
}

#[test]
fn emit_check_local_limit() {
    let mut code = String::new();
    for i in 0..255 {
        code.push_str(&format!("let v{} = {};", i, i));
    }
    assert!(can_emit(&program(&code)));
    let m = emit(&code);
    let at = module_prefix().len();
    assert_eq!(&m[at + 4..at + 7], &[1, 255, 0x7F]);
    code.push_str("let w = 0;");
    assert!(!can_emit(&program(&code)));
}

#[test]
fn compile_pipeline() {
    let c = compile("let x = 5;").unwrap();
    assert_eq!(c.program, program("let x = 5;"));
    assert_eq!(c.wasm, module(&[1, 1, 0x7F, 0x41, 5, 0x21, 0, 0x0B]));
    assert_eq!(c.log_ir.len(), 2);
}

#[test]
fn compile_errors() {
    assert_eq!(compile("a ! b").err(), Some(CompileError::Lex(LexError::UnexpectedBang(2))));
    assert_eq!(compile("let").err(), Some(CompileError::Parse(ParseError::ExpectedVariableName)));
    assert_eq!(compile("load_byte();").err(), Some(CompileError::MissingArguments));
    assert_eq!(compile("x = 1;").err(), Some(CompileError::NotEmittable));
    assert_eq!(compile("fn f() { store_byte(); }").err(), Some(CompileError::MissingArguments));
}
