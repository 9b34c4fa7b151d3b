//! A small compiler: a lexer, a recursive-descent parser, a linear log IR and
//! a WebAssembly emitter for a tiny imperative language.
pub mod ast;
pub mod compiler;
pub mod emit;
pub mod ir;
pub mod lexer;
pub mod parse_concat;
pub mod parser;
pub mod sleb128;
pub mod text;

pub use ast::{Expr, LogIR, Statement, Token};
pub use compiler::{compile, CompileError, Compiled};
pub use emit::WasmEmitter;
pub use ir::generate_log_ir;
pub use lexer::{tokenize, try_tokenize, LexError};
pub use parser::{ParseError, Parser};
pub mod roundtrip;
