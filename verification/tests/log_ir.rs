use lib::ir::can_generate_log_ir;
use lib::{generate_log_ir, tokenize, LogIR, Parser, Statement};

fn program(code: &str) -> Vec<Statement> {
    Parser::new(tokenize(code)).parse().unwrap()
}

fn ir(code: &str) -> Vec<LogIR> {
    let mut list = Vec::new();
    generate_log_ir(&program(code), &mut list);
    list
}

fn s(x: &str) -> String {
    x.to_string()
}

#[test]
fn log_ir_let_and_arithmetic() {
    assert_eq!(
        ir("let x = 1 + 2; x = x - 3;"),
        vec![
            LogIR::Push(1),
            LogIR::Push(2),
            LogIR::Add,
            LogIR::Store(s("x")),
            LogIR::Load(s("x")),
            LogIR::Push(3),
            LogIR::Sub,
            LogIR::Store(s("x")),
        ]
    );
}

#[test]
fn log_ir_comparisons() {
    assert_eq!(
        ir("let a = 1 < 2 == 3 != 4 <= 5 >= 6 > 7;"),
        vec![
            LogIR::Push(1),
            LogIR::Push(2),
            LogIR::Less,
            LogIR::Push(3),
            LogIR::Equal,
            LogIR::Push(4),
            LogIR::NotEqual,
            LogIR::Push(5),
            LogIR::LessEqual,
            LogIR::Push(6),
            LogIR::GreaterEqual,
            LogIR::Push(7),
            LogIR::Greater,
            LogIR::Store(s("a")),
        ]
    );
}

#[test]
fn log_ir_control_flow() {
    assert_eq!(
        ir("if (a) { b = 1; } else { b = 2; } while (c) { print(c); }"),
        vec![
            LogIR::Load(s("a")),
            LogIR::IfStart,
            LogIR::Push(1),
            LogIR::Store(s("b")),
            LogIR::ElseStart,
            LogIR::Push(2),
            LogIR::Store(s("b")),
            LogIR::LoopEnd,
            LogIR::WhileStart,
            LogIR::Load(s("c")),
            LogIR::Load(s("c")),
            LogIR::Call(s("print")),
            LogIR::LoopEnd,
        ]
    );
}

#[test]
fn log_ir_if_without_else() {
    assert_eq!(
        ir("if (a) { }"),
        vec![LogIR::Load(s("a")), LogIR::IfStart, LogIR::LoopEnd]
    );
}

#[test]
fn log_ir_memory_builtins() {
    assert_eq!(
        ir("store_byte(1, load_byte(2, 99)); load_byte(3);"),
        vec![
            LogIR::Push(1),
            LogIR::Push(2),
            LogIR::LoadByte,
            LogIR::StoreByte,
            LogIR::Push(3),
            LogIR::LoadByte,
        ]
    );
}

#[test]
fn log_ir_enters_function_bodies() {
    assert_eq!(
        ir("fn main() { let a = alloc(4, 5); }"),
        vec![LogIR::Push(4), LogIR::Push(5), LogIR::Call(s("alloc")), LogIR::Store(s("a"))]
    );
}

#[test]
fn log_ir_appends_to_the_list() {
    let mut list = vec![LogIR::Push(9)];
    generate_log_ir(&program("print(1);"), &mut list);
    assert_eq!(list, vec![LogIR::Push(9), LogIR::Push(1), LogIR::Call(s("print"))]);
}

#[test]
fn log_ir_of_a_concatenation_is_the_concatenation() {
    let mut whole = Vec::new();
    generate_log_ir(&program("let a = 1; while (a) { a = a - 1; }"), &mut whole);
    let mut parts = Vec::new();
    generate_log_ir(&program("let a = 1;"), &mut parts);
    generate_log_ir(&program("while (a) { a = a - 1; }"), &mut parts);
    assert_eq!(whole, parts);
}

#[test]
fn log_ir_argument_check() {
    assert!(can_generate_log_ir(&program("load_byte(1); store_byte(1, 2);")));
    assert!(!can_generate_log_ir(&program("load_byte();")));
    assert!(!can_generate_log_ir(&program("store_byte(1);")));
    assert!(!can_generate_log_ir(&program("fn f() { print(load_byte()); }")));
}
