//! The whole pipeline, from source text to the syntax tree, the log IR and
//! the WebAssembly module.
use vstd::prelude::*;
use crate::ast::{LogIR, LogIRV, Statement, StatementV, TokenV, log_irs_view, stmts_view};
use crate::emit::{WasmEmitter, can_emit, emittable, wasm_module};
use crate::ir::{can_generate_log_ir, generate_log_ir, stmts_ir, stmts_ir_ok};
use crate::lexer::{LexError, spec_tokenize, tokenize, try_tokenize};
use crate::parser::{ParseError, ParseErrorV, Parser, parse_program_at};

verus! {

/// The statements of a token stream, or the first error met parsing it.
pub open spec fn parse_program(ts: Seq<TokenV>) -> Result<Seq<StatementV>, ParseErrorV> {
    parse_program_at(ts, 0, seq![]).0
}

/// Why a source text cannot be compiled.
#[derive(Debug, Clone, PartialEq)]
pub enum CompileError {
    /// The text cannot be tokenized.
    Lex(LexError),
    /// The tokens are not a program.
    Parse(ParseError),
    /// A `load_byte` call has no argument, or a `store_byte` call fewer than two.
    MissingArguments,
    /// The program has more than 255 locals, or reads or assigns an undeclared one.
    NotEmittable,
}

/// The mathematical value of a [`CompileError`].
pub enum CompileErrorV {
    Lex(LexError),
    Parse(ParseErrorV),
    MissingArguments,
    NotEmittable,
}

impl View for CompileError {
    type V = CompileErrorV;

    open spec fn view(&self) -> CompileErrorV {
        match *self {
            CompileError::Lex(e) => CompileErrorV::Lex(e),
            CompileError::Parse(e) => CompileErrorV::Parse(e@),
            CompileError::MissingArguments => CompileErrorV::MissingArguments,
            CompileError::NotEmittable => CompileErrorV::NotEmittable,
        }
    }
}

/// Everything the compiler produces for a program.
pub struct Compiled {
    /// The syntax tree.
    pub program: Vec<Statement>,
    /// The linear log representation.
    pub log_ir: Vec<LogIR>,
    /// The WebAssembly module.
    pub wasm: Vec<u8>,
}

/// What compiling `code` gives: its statements, log IR and module, or the
/// first stage that refuses it.
pub open spec fn compile_spec(code: Seq<char>) -> Result<
    (Seq<StatementV>, Seq<LogIRV>, Seq<u8>),
    CompileErrorV,
> {
    match spec_tokenize(code) {
        Err(e) => Err(CompileErrorV::Lex(e)),
        Ok(ts) => match parse_program(ts) {
            Err(e) => Err(CompileErrorV::Parse(e)),
            Ok(prog) => if !stmts_ir_ok(prog) {
                Err(CompileErrorV::MissingArguments)
            } else if !emittable(prog) {
                Err(CompileErrorV::NotEmittable)
            } else {
                Ok((prog, stmts_ir(prog), wasm_module(prog)))
            },
        },
    }
}

/// Tokenizes, parses, lowers to the log IR and emits WebAssembly.
pub fn compile(code: &str) -> (r: Result<Compiled, CompileError>)
    ensures
        match r {
            Ok(c) => compile_spec(code@) == Ok::<_, CompileErrorV>(
                (stmts_view(c.program@), log_irs_view(c.log_ir@), c.wasm@),
            ),
            Err(e) => compile_spec(code@) == Err::<(Seq<StatementV>, Seq<LogIRV>, Seq<u8>), _>(
                e@,
            ),
        },
{
    // The text is checked first; only a text that can be tokenized is tokenized.
    if let Err(e) = try_tokenize(code) {
        return Err(CompileError::Lex(e));
    }
    let tokens = tokenize(code);
    let mut parser = Parser::new(tokens);
    let program = match parser.parse() {
        Ok(program) => program,
        Err(e) => return Err(CompileError::Parse(e)),
    };
    if !can_generate_log_ir(program.as_slice()) {
        return Err(CompileError::MissingArguments);
    }
    let mut log_ir: Vec<LogIR> = Vec::new();
    assert(log_irs_view(log_ir@) =~= Seq::<LogIRV>::empty());
    generate_log_ir(program.as_slice(), &mut log_ir);
    assert(log_irs_view(log_ir@) =~= stmts_ir(stmts_view(program@)));
    if !can_emit(program.as_slice()) {
        return Err(CompileError::NotEmittable);
    }
    let wasm = WasmEmitter::emit(program.as_slice());
    Ok(Compiled { program, log_ir, wasm })
}

} // verus!
