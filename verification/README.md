# A verified toy compiler

A compiler for a tiny imperative language (`let`, assignment, `if`/`else`,
`while`, function declarations, calls, `+ - < <= > >= == !=` on `i32`) into a
WebAssembly module, written in Verus. Every stage is specified by spec
functions over mathematical values and proved against them.

Layout of `src/`:

- `ast.rs` — tokens, expressions, statements and log-IR instructions, with
  their views (strings seen as `Seq<char>`).
- `text.rs` — character classes (`char::is_alphabetic` / `is_alphanumeric`
  behind trusted wrappers), `String::push`, a verified string comparison.
- `lexer.rs` — `tokenize` / `try_tokenize` against `spec_tokenize`, and the
  laws that a blank separates tokens and a stray character acts as a blank.
- `parser.rs` — the recursive-descent `Parser` against a grammar of spec
  functions on token positions.
- `ir.rs` — `generate_log_ir`, the linear stack-based log representation.
- `sleb128.rs` — signed LEB128 encoding, with its decoding law.
- `emit.rs` — `WasmEmitter::emit`, the module layout, the local table, and
  the law that function declarations leave the module unchanged.
- `compiler.rs` — `compile`, the whole pipeline with the stage that refuses.
- `roundtrip.rs` — a token printer and the proof that the parser reads back
  every well-formed program it prints.
- `parse_concat.rs` — the proof that statements are self-delimiting: the
  tokens of two programs one after the other parse into both programs' statements.

`app/main.rs` is the command-line driver: it reads a source file, prints the
stages and writes `output.wasm`.
