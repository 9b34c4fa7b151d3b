//! The WebAssembly emitter: one exported function `main` whose body is the
//! top-level code of the program, with four host functions imported from `env`.
use vstd::prelude::*;
use crate::ast::{Statement, StatementV, Expr, ExprV, exprs_view, stmts_view, group_view_lemmas, lemma_stmts_view};
use crate::sleb128::{sleb128, write_sleb128};
use crate::text::str_is;

verus! {

broadcast use group_view_lemmas;

// ---------------------------------------------------------------- locals

/// The locals after `s` is scanned with `acc` already known: a `let` adds its
/// name unless it is known; `if` and `while` are scanned inside; a function
/// declaration is not.
pub open spec fn locals_stmt(s: StatementV, acc: Seq<Seq<char>>) -> Seq<Seq<char>>
    decreases s,
{
    match s {
        StatementV::Let { name, .. } => if acc.contains(name) {
            acc
        } else {
            acc.push(name)
        },
        StatementV::If { then_branch, else_branch, .. } => {
            let a = locals_seq(then_branch, acc);
            match else_branch {
                Some(eb) => locals_seq(eb, a),
                None => a,
            }
        },
        StatementV::While { body, .. } => locals_seq(body, acc),
        _ => acc,
    }
}

/// The locals after the statements of `ss` are scanned in order.
pub open spec fn locals_seq(ss: Seq<StatementV>, acc: Seq<Seq<char>>) -> Seq<Seq<char>>
    decreases ss,
{
    if ss.len() == 0 {
        acc
    } else {
        locals_stmt(ss.last(), locals_seq(ss.drop_last(), acc))
    }
}

/// The locals of `main`, in order of first declaration; a local's index is its
/// position here.
pub open spec fn locals_of(ss: Seq<StatementV>) -> Seq<Seq<char>> {
    locals_seq(ss, Seq::empty())
}

// ---------------------------------------------------------------- names

pub open spec fn is_load_byte(name: Seq<char>) -> bool {
    name == "load_byte"@
}

pub open spec fn is_store_byte(name: Seq<char>) -> bool {
    name == "store_byte"@
}

/// The index of the imported function that a call of `name` goes to.
pub open spec fn import_index(name: Seq<char>) -> u8 {
    if name == "print"@ {
        0
    } else if name == "read_file"@ {
        1
    } else if name == "write_file"@ {
        2
    } else if name == "alloc"@ {
        3
    } else {
        0
    }
}

/// Whether a call statement's result is dropped (the imports that return a value).
pub open spec fn call_result_dropped(e: ExprV) -> bool {
    match e {
        ExprV::Call { name, .. } => name == "read_file"@ || name == "alloc"@ || is_load_byte(name),
        _ => false,
    }
}

/// The opcode of a binary operator; an unknown operator emits nothing.
pub open spec fn binary_opcode(op: Seq<char>) -> Seq<u8> {
    if op == "+"@ {
        seq![0x6Au8]
    } else if op == "-"@ {
        seq![0x6Bu8]
    } else if op == "<"@ {
        seq![0x48u8]
    } else if op == "=="@ {
        seq![0x46u8]
    } else if op == "!="@ {
        seq![0x47u8]
    } else if op == ">"@ {
        seq![0x4Au8]
    } else if op == "<="@ {
        seq![0x4Cu8]
    } else if op == ">="@ {
        seq![0x4Eu8]
    } else {
        seq![]
    }
}

// ---------------------------------------------------------------- code

/// The index of local `name`.
pub open spec fn local_slot(locals: Seq<Seq<char>>, name: Seq<char>) -> u8 {
    locals.index_of(name) as u8
}

/// The instructions that evaluate `e`.
pub open spec fn code_expr(e: ExprV, locals: Seq<Seq<char>>) -> Seq<u8>
    decreases e,
{
    match e {
        ExprV::Number(n) => seq![0x41u8] + sleb128(n as int),
        ExprV::Variable(v) => seq![0x20u8, local_slot(locals, v)],
        ExprV::BinaryOp { left, op, right } => code_expr(*left, locals) + code_expr(*right, locals)
            + binary_opcode(op),
        ExprV::Call { name, args } => if is_load_byte(name) {
            if args.len() >= 1 {
                code_expr(args[0], locals) + seq![0x2Du8, 0x00, 0x00]
            } else {
                seq![]
            }
        } else if is_store_byte(name) {
            if args.len() >= 2 {
                code_expr(args[0], locals) + code_expr(args[1], locals) + seq![0x3Au8, 0x00, 0x00]
            } else {
                seq![]
            }
        } else {
            code_exprs(args, locals) + seq![0x10u8, import_index(name)]
        },
    }
}

/// The instructions that evaluate each of `es` in order.
pub open spec fn code_exprs(es: Seq<ExprV>, locals: Seq<Seq<char>>) -> Seq<u8>
    decreases es,
{
    if es.len() == 0 {
        seq![]
    } else {
        code_exprs(es.drop_last(), locals) + code_expr(es.last(), locals)
    }
}

/// The instructions of statement `s`; a function declaration emits nothing.
pub open spec fn code_stmt(s: StatementV, locals: Seq<Seq<char>>) -> Seq<u8>
    decreases s,
{
    match s {
        StatementV::Let { name, value } => code_expr(value, locals) + seq![
            0x21u8,
            local_slot(locals, name),
        ],
        StatementV::Assign { name, value } => code_expr(value, locals) + seq![
            0x21u8,
            local_slot(locals, name),
        ],
        StatementV::Expression(e) => code_expr(e, locals) + if call_result_dropped(e) {
            seq![0x1Au8]
        } else {
            seq![]
        },
        StatementV::If { condition, then_branch, else_branch } => code_expr(condition, locals)
            + seq![0x04u8, 0x40] + code_stmts(then_branch, locals) + match else_branch {
            Some(eb) => seq![0x05u8] + code_stmts(eb, locals),
            None => seq![],
        } + seq![0x0Bu8],
        StatementV::While { condition, body } => seq![0x02u8, 0x40, 0x03, 0x40] + code_expr(
            condition,
            locals,
        ) + seq![0x45u8, 0x0D, 0x01] + code_stmts(body, locals) + seq![0x0Cu8, 0x00, 0x0B, 0x0B],
        StatementV::Function { .. } => seq![],
    }
}

/// The instructions of each statement of `ss` in order.
pub open spec fn code_stmts(ss: Seq<StatementV>, locals: Seq<Seq<char>>) -> Seq<u8>
    decreases ss,
{
    if ss.len() == 0 {
        seq![]
    } else {
        code_stmts(ss.drop_last(), locals) + code_stmt(ss.last(), locals)
    }
}

// ---------------------------------------------------------------- module

/// The body of `main`: its local declarations (one run of `i32`), its code, `end`.
pub open spec fn function_body(ss: Seq<StatementV>) -> Seq<u8> {
    let locals = locals_of(ss);
    (if locals.len() > 0 {
        seq![1u8, locals.len() as u8, 0x7F]
    } else {
        seq![0u8]
    }) + code_stmts(ss, locals) + seq![0x0Bu8]
}

/// A section: its id, its size in one byte (taken modulo 256), its contents.
pub open spec fn section(id: u8, contents: Seq<u8>) -> Seq<u8> {
    seq![id, contents.len() as u8] + contents
}

pub open spec fn wasm_header() -> Seq<u8> {
    seq![0x00u8, 0x61, 0x73, 0x6D, 0x01, 0x00, 0x00, 0x00]
}

/// Four function types: `(i32)`, `(i32) -> i32`, `(i32, i32, i32) -> i32`, `()`.
pub open spec fn type_section_contents() -> Seq<u8> {
    seq![4u8] + seq![0x60u8, 0x01, 0x7F, 0x00] + seq![0x60u8, 0x01, 0x7F, 0x01, 0x7F] + seq![
        0x60u8,
        0x03,
        0x7F,
        0x7F,
        0x7F,
        0x01,
        0x7F,
    ] + seq![0x60u8, 0x00, 0x00]
}

/// `env.print`, `env.read_file`, `env.write_file` and `env.alloc` (the names in
/// ASCII), of types 0, 1, 2 and 1.
pub open spec fn import_section_contents() -> Seq<u8> {
    seq![4u8] + seq![3u8, 101, 110, 118, 5, 112, 114, 105, 110, 116, 0, 0] + seq![
        3u8,
        101,
        110,
        118,
        9,
        114,
        101,
        97,
        100,
        95,
        102,
        105,
        108,
        101,
        0,
        1,
    ] + seq![3u8, 101, 110, 118, 10, 119, 114, 105, 116, 101, 95, 102, 105, 108, 101, 0, 2]
        + seq![3u8, 101, 110, 118, 5, 97, 108, 108, 111, 99, 0, 1]
}

/// `memory` (memory 0) and `main` (function 4).
pub open spec fn export_section_contents() -> Seq<u8> {
    seq![2u8] + seq![6u8, 109, 101, 109, 111, 114, 121, 2, 0] + seq![4u8, 109, 97, 105, 110, 0, 4]
}

/// The whole module that the emitter writes for the program `ss`.
pub open spec fn wasm_module(ss: Seq<StatementV>) -> Seq<u8> {
    let body = function_body(ss);
    wasm_header() + section(1, type_section_contents()) + section(2, import_section_contents())
        + section(3, seq![1u8, 3]) + section(5, seq![1u8, 0, 1]) + section(
        7,
        export_section_contents(),
    ) + section(10, seq![1u8, body.len() as u8] + body)
}


// ---------------------------------------------------------------- preconditions

/// Every local that `e` reads is declared, and `load_byte` / `store_byte` get the
/// arguments that the emitter reads.
pub open spec fn expr_refs_declared(e: ExprV, locals: Seq<Seq<char>>) -> bool
    decreases e,
{
    match e {
        ExprV::Number(_) => true,
        ExprV::Variable(v) => locals.contains(v),
        ExprV::BinaryOp { left, right, .. } => expr_refs_declared(*left, locals)
            && expr_refs_declared(*right, locals),
        ExprV::Call { name, args } => if is_load_byte(name) {
            args.len() >= 1 && expr_refs_declared(args[0], locals)
        } else if is_store_byte(name) {
            args.len() >= 2 && expr_refs_declared(args[0], locals) && expr_refs_declared(
                args[1],
                locals,
            )
        } else {
            forall|i: int| 0 <= i < args.len() ==> expr_refs_declared(#[trigger] args[i], locals)
        },
    }
}

/// Every local that `s` reads or assigns (outside function declarations) is declared.
pub open spec fn stmt_refs_declared(s: StatementV, locals: Seq<Seq<char>>) -> bool
    decreases s,
{
    match s {
        StatementV::Let { value, .. } => expr_refs_declared(value, locals),
        StatementV::Assign { name, value } => locals.contains(name) && expr_refs_declared(
            value,
            locals,
        ),
        StatementV::Expression(e) => expr_refs_declared(e, locals),
        StatementV::If { condition, then_branch, else_branch } => expr_refs_declared(
            condition,
            locals,
        ) && (forall|i: int|
            0 <= i < then_branch.len() ==> stmt_refs_declared(#[trigger] then_branch[i], locals))
            && match else_branch {
            Some(eb) => forall|i: int|
                0 <= i < eb.len() ==> stmt_refs_declared(#[trigger] eb[i], locals),
            None => true,
        },
        StatementV::While { condition, body } => expr_refs_declared(condition, locals) && forall|
            i: int,
        |
            0 <= i < body.len() ==> stmt_refs_declared(#[trigger] body[i], locals),
        StatementV::Function { .. } => true,
    }
}

pub open spec fn stmts_refs_declared(ss: Seq<StatementV>, locals: Seq<Seq<char>>) -> bool {
    forall|i: int| 0 <= i < ss.len() ==> stmt_refs_declared(#[trigger] ss[i], locals)
}

/// Every `let` of `s` (outside function declarations) names a known local.
pub open spec fn stmt_lets_declared(s: StatementV, locals: Seq<Seq<char>>) -> bool
    decreases s,
{
    match s {
        StatementV::Let { name, .. } => locals.contains(name),
        StatementV::If { then_branch, else_branch, .. } => (forall|i: int|
            0 <= i < then_branch.len() ==> stmt_lets_declared(#[trigger] then_branch[i], locals))
            && match else_branch {
            Some(eb) => forall|i: int|
                0 <= i < eb.len() ==> stmt_lets_declared(#[trigger] eb[i], locals),
            None => true,
        },
        StatementV::While { body, .. } => forall|i: int|
            0 <= i < body.len() ==> stmt_lets_declared(#[trigger] body[i], locals),
        _ => true,
    }
}

pub open spec fn stmts_lets_declared(ss: Seq<StatementV>, locals: Seq<Seq<char>>) -> bool {
    forall|i: int| 0 <= i < ss.len() ==> stmt_lets_declared(#[trigger] ss[i], locals)
}

/// The programs that the emitter accepts: at most 255 locals (the count is a
/// `u8`), and no read or assignment of an undeclared local.
pub open spec fn emittable(ss: Seq<StatementV>) -> bool {
    &&& locals_of(ss).len() <= 255
    &&& stmts_refs_declared(ss, locals_of(ss))
}


// ---------------------------------------------------------------- lemmas

/// Every element of `small` is an element of `big`.
pub open spec fn includes(big: Seq<Seq<char>>, small: Seq<Seq<char>>) -> bool {
    forall|x: Seq<char>| #[trigger] small.contains(x) ==> big.contains(x)
}

/// Scanning a statement only adds locals, and adds none twice.
proof fn lemma_locals_stmt(s: StatementV, acc: Seq<Seq<char>>)
    ensures
        includes(locals_stmt(s, acc), acc),
        acc.no_duplicates() ==> locals_stmt(s, acc).no_duplicates(),
    decreases s,
{
    match s {
        StatementV::Let { name, .. } => {
            if !acc.contains(name) {
                let r = acc.push(name);
                assert forall|x: Seq<char>| #[trigger] acc.contains(x) implies r.contains(x) by {
                    let k = choose|k: int| 0 <= k < acc.len() && acc[k] == x;
                    assert(r[k] == x);
                }
                if acc.no_duplicates() {
                    assert forall|i: int, j: int|
                        0 <= i < r.len() && 0 <= j < r.len() && i != j implies r[i] != r[j] by {
                        if i == acc.len() as int {
                            assert(r[j] == acc[j]);
                        } else if j == acc.len() as int {
                            assert(r[i] == acc[i]);
                        }
                    }
                }
            }
        },
        StatementV::If { then_branch, else_branch, .. } => {
            lemma_locals_seq(then_branch, acc);
            match else_branch {
                Some(eb) => lemma_locals_seq(eb, locals_seq(then_branch, acc)),
                None => {},
            }
        },
        StatementV::While { body, .. } => lemma_locals_seq(body, acc),
        _ => {},
    }
}

/// Scanning statements only adds locals, and adds none twice.
proof fn lemma_locals_seq(ss: Seq<StatementV>, acc: Seq<Seq<char>>)
    ensures
        includes(locals_seq(ss, acc), acc),
        acc.no_duplicates() ==> locals_seq(ss, acc).no_duplicates(),
    decreases ss,
{
    if ss.len() > 0 {
        lemma_locals_seq(ss.drop_last(), acc);
        lemma_locals_stmt(ss.last(), locals_seq(ss.drop_last(), acc));
    }
}

/// Every `let` of `s` names a local of any superset of what scanning `s` gives.
proof fn lemma_lets_stmt(s: StatementV, acc: Seq<Seq<char>>, locals: Seq<Seq<char>>)
    requires
        includes(locals, locals_stmt(s, acc)),
    ensures
        stmt_lets_declared(s, locals),
    decreases s,
{
    match s {
        StatementV::Let { name, .. } => {
            if !acc.contains(name) {
                assert(acc.push(name)[acc.len() as int] == name);
                assert(locals_stmt(s, acc).contains(name));
            }
        },
        StatementV::If { then_branch, else_branch, .. } => {
            let a = locals_seq(then_branch, acc);
            match else_branch {
                Some(eb) => {
                    lemma_locals_seq(eb, a);
                    lemma_lets_seq(then_branch, acc, locals);
                    lemma_lets_seq(eb, a, locals);
                },
                None => {
                    lemma_lets_seq(then_branch, acc, locals);
                },
            }
        },
        StatementV::While { body, .. } => lemma_lets_seq(body, acc, locals),
        _ => {},
    }
}

/// Every `let` of `ss` names a local of any superset of what scanning `ss` gives.
proof fn lemma_lets_seq(ss: Seq<StatementV>, acc: Seq<Seq<char>>, locals: Seq<Seq<char>>)
    requires
        includes(locals, locals_seq(ss, acc)),
    ensures
        stmts_lets_declared(ss, locals),
    decreases ss,
{
    if ss.len() > 0 {
        let a = locals_seq(ss.drop_last(), acc);
        lemma_locals_stmt(ss.last(), a);
        lemma_lets_seq(ss.drop_last(), acc, locals);
        lemma_lets_stmt(ss.last(), a, locals);
        assert forall|i: int| 0 <= i < ss.len() implies stmt_lets_declared(
            #[trigger] ss[i],
            locals,
        ) by {
            if i < ss.len() - 1 {
                assert(ss[i] == ss.drop_last()[i]);
            }
        }
    }
}

/// No local is declared twice: each name has one index.
pub proof fn lemma_locals_distinct(ss: Seq<StatementV>)
    ensures
        locals_of(ss).no_duplicates(),
{
    lemma_locals_seq(ss, Seq::empty());
}

/// Every `let` of the program (outside function declarations) has a local.
pub proof fn lemma_lets_have_locals(ss: Seq<StatementV>)
    ensures
        stmts_lets_declared(ss, locals_of(ss)),
{
    lemma_lets_seq(ss, Seq::empty(), locals_of(ss));
}


/// The local operands the emitter writes are in range and tell locals apart:
/// a declared name's index is below the number of locals, and two different
/// declared names have different indices.
pub proof fn lemma_local_slots(ss: Seq<StatementV>, a: Seq<char>, b: Seq<char>)
    requires
        locals_of(ss).len() <= 255,
        locals_of(ss).contains(a),
        locals_of(ss).contains(b),
    ensures
        (local_slot(locals_of(ss), a) as int) < locals_of(ss).len(),
        a != b ==> local_slot(locals_of(ss), a) != local_slot(locals_of(ss), b),
{
    let l = locals_of(ss);
    let ka = l.index_of(a);
    let kb = l.index_of(b);
    assert(0 <= ka < l.len() && l[ka] == a);
    assert(0 <= kb < l.len() && l[kb] == b);
}

/// `s` with every function declaration inside it removed, at any depth.
pub open spec fn strip_functions_stmt(s: StatementV) -> StatementV
    decreases s,
{
    match s {
        StatementV::If { condition, then_branch, else_branch } => StatementV::If {
            condition,
            then_branch: strip_functions(then_branch),
            else_branch: match else_branch {
                Some(eb) => Some(strip_functions(eb)),
                None => None,
            },
        },
        StatementV::While { condition, body } => StatementV::While {
            condition,
            body: strip_functions(body),
        },
        StatementV::Function { name, body } => StatementV::Function {
            name,
            body: strip_functions(body),
        },
        _ => s,
    }
}

/// `ss` with every function declaration removed, at any depth.
pub open spec fn strip_functions(ss: Seq<StatementV>) -> Seq<StatementV>
    decreases ss,
{
    if ss.len() == 0 {
        seq![]
    } else if ss.last() is Function {
        strip_functions(ss.drop_last())
    } else {
        strip_functions(ss.drop_last()).push(strip_functions_stmt(ss.last()))
    }
}

proof fn lemma_refs_split(ss: Seq<StatementV>, l: Seq<Seq<char>>)
    requires
        ss.len() > 0,
    ensures
        stmts_refs_declared(ss, l) == (stmts_refs_declared(ss.drop_last(), l) && stmt_refs_declared(
            ss.last(),
            l,
        )),
{
    if stmts_refs_declared(ss.drop_last(), l) && stmt_refs_declared(ss.last(), l) {
        assert forall|i: int| 0 <= i < ss.len() implies stmt_refs_declared(#[trigger] ss[i], l) by {
            if i < ss.len() - 1 {
                assert(ss[i] == ss.drop_last()[i]);
            }
        }
    }
    if stmts_refs_declared(ss, l) {
        assert forall|i: int| 0 <= i < ss.drop_last().len() implies stmt_refs_declared(
            #[trigger] ss.drop_last()[i],
            l,
        ) by {
            assert(ss[i] == ss.drop_last()[i]);
        }
        assert(stmt_refs_declared(ss[ss.len() - 1], l));
    }
}

/// The clause of `stmt_refs_declared` for an `if`, over its parts.
proof fn lemma_if_refs(t: StatementV, l: Seq<Seq<char>>)
    requires
        t is If,
    ensures
        stmt_refs_declared(t, l) == (expr_refs_declared(t->If_condition, l) && stmts_refs_declared(
            t->then_branch,
            l,
        ) && match t->else_branch {
            Some(eb) => stmts_refs_declared(eb, l),
            None => true,
        }),
{
    let else_ok = match t->else_branch {
        Some(eb) => forall|k: int| 0 <= k < eb.len() ==> stmt_refs_declared(#[trigger] eb[k], l),
        None => true,
    };
    assert(stmt_refs_declared(t, l) == (expr_refs_declared(t->If_condition, l)
        && stmts_refs_declared(t->then_branch, l) && else_ok));
}

/// The clause of `stmt_refs_declared` for a `while`, over its parts.
proof fn lemma_while_refs(t: StatementV, l: Seq<Seq<char>>)
    requires
        t is While,
    ensures
        stmt_refs_declared(t, l) == (expr_refs_declared(t->While_condition, l)
            && stmts_refs_declared(t->While_body, l)),
{
}

proof fn lemma_strip_stmt(s: StatementV, acc: Seq<Seq<char>>, l: Seq<Seq<char>>)
    requires
        !(s is Function),
    ensures
        locals_stmt(strip_functions_stmt(s), acc) == locals_stmt(s, acc),
        code_stmt(strip_functions_stmt(s), l) == code_stmt(s, l),
        stmt_refs_declared(strip_functions_stmt(s), l) == stmt_refs_declared(s, l),
    decreases s,
{
    let t = strip_functions_stmt(s);
    match s {
        StatementV::If { condition, then_branch, else_branch } => {
            lemma_strip(then_branch, acc, l);
            let a = locals_seq(then_branch, acc);
            match else_branch {
                Some(eb) => lemma_strip(eb, a, l),
                None => {},
            }
            lemma_if_refs(s, l);
            lemma_if_refs(t, l);
        },
        StatementV::While { body, .. } => {
            lemma_strip(body, acc, l);
            lemma_while_refs(s, l);
            lemma_while_refs(t, l);
        },
        _ => {},
    }
}

proof fn lemma_strip(ss: Seq<StatementV>, acc: Seq<Seq<char>>, l: Seq<Seq<char>>)
    ensures
        locals_seq(strip_functions(ss), acc) == locals_seq(ss, acc),
        code_stmts(strip_functions(ss), l) == code_stmts(ss, l),
        stmts_refs_declared(strip_functions(ss), l) == stmts_refs_declared(ss, l),
    decreases ss,
{
    if ss.len() > 0 {
        let init = ss.drop_last();
        let x = ss.last();
        let r = strip_functions(init);
        lemma_strip(init, acc, l);
        lemma_refs_split(ss, l);
        if x is Function {
            assert(strip_functions(ss) == r);
            assert(locals_seq(ss, acc) == locals_stmt(x, locals_seq(init, acc)));
            assert(locals_stmt(x, locals_seq(init, acc)) == locals_seq(init, acc));
            assert(code_stmt(x, l) =~= Seq::<u8>::empty());
            assert(code_stmts(ss, l) =~= code_stmts(init, l));
        } else {
            lemma_strip_stmt(x, locals_seq(init, acc), l);
            let y = strip_functions_stmt(x);
            assert(r.push(y).drop_last() =~= r);
            assert(r.push(y).last() == y);
            assert(strip_functions(ss) == r.push(y));
            lemma_refs_split(r.push(y), l);
            assert(locals_seq(r.push(y), acc) == locals_stmt(y, locals_seq(r, acc)));
            assert(code_stmts(r.push(y), l) == code_stmts(r, l) + code_stmt(y, l));
        }
    }
}

/// Function declarations, at any depth, do not change what is emitted: the
/// program without them is accepted exactly when the program is, and gives the
/// same module.
pub proof fn lemma_emit_ignores_functions(ss: Seq<StatementV>)
    ensures
        locals_of(strip_functions(ss)) == locals_of(ss),
        emittable(strip_functions(ss)) == emittable(ss),
        wasm_module(strip_functions(ss)) == wasm_module(ss),
{
    lemma_strip(ss, Seq::empty(), locals_of(ss));
}

// ---------------------------------------------------------------- code laws

/// Arguments are evaluated left to right: the code of `a ++ b` is the code of
/// `a`, then the code of `b`.
pub proof fn lemma_code_exprs_concat(a: Seq<ExprV>, b: Seq<ExprV>, locals: Seq<Seq<char>>)
    ensures
        code_exprs(a + b, locals) == code_exprs(a, locals) + code_exprs(b, locals),
    decreases b.len(),
{
    if b.len() == 0 {
        assert(a + b =~= a);
        assert(code_exprs(a, locals) + code_exprs(b, locals) =~= code_exprs(a, locals));
    } else {
        lemma_code_exprs_concat(a, b.drop_last(), locals);
        assert((a + b).drop_last() =~= a + b.drop_last());
        assert((a + b).last() == b.last());
        assert(code_exprs(a + b, locals) =~= code_exprs(a, locals) + code_exprs(b, locals));
    }
}

/// The code of one argument is the code of that expression.
pub proof fn lemma_code_exprs_single(x: ExprV, locals: Seq<Seq<char>>)
    ensures
        code_exprs(seq![x], locals) == code_expr(x, locals),
{
    assert(seq![x].drop_last() =~= Seq::<ExprV>::empty());
    assert(seq![x].last() == x);
    assert(code_exprs(Seq::<ExprV>::empty(), locals) =~= Seq::<u8>::empty());
    assert(Seq::<u8>::empty() + code_expr(x, locals) =~= code_expr(x, locals));
}

/// A call of an imported function evaluates its first argument before the
/// others: the code of `f(x, rest...)` is the code of `x`, then the code of
/// `f(rest...)`.
pub proof fn lemma_call_first_argument(
    name: Seq<char>,
    x: ExprV,
    rest: Seq<ExprV>,
    locals: Seq<Seq<char>>,
)
    requires
        !is_load_byte(name),
        !is_store_byte(name),
    ensures
        code_expr(ExprV::Call { name, args: seq![x] + rest }, locals) == code_expr(x, locals)
            + code_expr(ExprV::Call { name, args: rest }, locals),
{
    lemma_code_exprs_concat(seq![x], rest, locals);
    lemma_code_exprs_single(x, locals);
    assert(code_expr(ExprV::Call { name, args: seq![x] + rest }, locals) =~= code_expr(x, locals)
        + code_expr(ExprV::Call { name, args: rest }, locals));
}

/// Every `if` and every loop is closed by an `end` (0x0B), with or without `else`.
pub proof fn lemma_code_block_closed(s: StatementV, locals: Seq<Seq<char>>)
    requires
        s is If || s is While,
    ensures
        code_stmt(s, locals).len() > 0,
        code_stmt(s, locals).last() == 0x0Bu8,
{
}

/// An `if` without `else` is emitted as the same `if` with an empty `else`,
/// less its one `else` byte (0x05): the then-branch and the closing `end` are
/// emitted either way.
pub proof fn lemma_code_if_without_else(
    condition: ExprV,
    then_branch: Seq<StatementV>,
    locals: Seq<Seq<char>>,
)
    ensures
        code_stmt(StatementV::If { condition, then_branch, else_branch: Some(seq![]) }, locals)
            == code_stmt(
            StatementV::If { condition, then_branch, else_branch: None },
            locals,
        ).drop_last() + seq![0x05u8, 0x0B],
{
    let head = code_expr(condition, locals) + seq![0x04u8, 0x40] + code_stmts(then_branch, locals);
    assert(code_stmts(Seq::<StatementV>::empty(), locals) =~= Seq::<u8>::empty());
    assert(code_stmt(StatementV::If { condition, then_branch, else_branch: None }, locals) =~= head
        + seq![0x0Bu8]);
    assert((head + seq![0x0Bu8]).drop_last() =~= head);
    assert(code_stmt(StatementV::If { condition, then_branch, else_branch: Some(seq![]) }, locals)
        =~= head + seq![0x05u8, 0x0B]);
}

/// The statements of a then-branch are emitted just before the `end` of their
/// `if`: adding them to an empty branch inserts their code there.
pub proof fn lemma_code_then_branch(
    condition: ExprV,
    then_branch: Seq<StatementV>,
    locals: Seq<Seq<char>>,
)
    ensures
        code_stmt(StatementV::If { condition, then_branch, else_branch: None }, locals) == code_stmt(
            StatementV::If { condition, then_branch: seq![], else_branch: None },
            locals,
        ).drop_last() + code_stmts(then_branch, locals) + seq![0x0Bu8],
{
    let head = code_expr(condition, locals) + seq![0x04u8, 0x40];
    assert(code_stmts(Seq::<StatementV>::empty(), locals) =~= Seq::<u8>::empty());
    assert(code_stmt(StatementV::If { condition, then_branch: seq![], else_branch: None }, locals)
        =~= head + seq![0x0Bu8]);
    assert((head + seq![0x0Bu8]).drop_last() =~= head);
    assert(code_stmt(StatementV::If { condition, then_branch, else_branch: None }, locals) =~= head
        + code_stmts(then_branch, locals) + seq![0x0Bu8]);
}

/// The statements of an else-branch are emitted just before the `end` of their
/// `if`: adding them to an empty else-branch inserts their code there.
pub proof fn lemma_code_else_branch(
    condition: ExprV,
    then_branch: Seq<StatementV>,
    else_branch: Seq<StatementV>,
    locals: Seq<Seq<char>>,
)
    ensures
        code_stmt(StatementV::If { condition, then_branch, else_branch: Some(else_branch) }, locals)
            == code_stmt(
            StatementV::If { condition, then_branch, else_branch: Some(seq![]) },
            locals,
        ).drop_last() + code_stmts(else_branch, locals) + seq![0x0Bu8],
{
    let head = code_expr(condition, locals) + seq![0x04u8, 0x40] + code_stmts(then_branch, locals)
        + seq![0x05u8];
    assert(code_stmts(Seq::<StatementV>::empty(), locals) =~= Seq::<u8>::empty());
    assert(code_stmt(StatementV::If { condition, then_branch, else_branch: Some(seq![]) }, locals)
        =~= head + seq![0x0Bu8]);
    assert((head + seq![0x0Bu8]).drop_last() =~= head);
    assert(code_stmt(
        StatementV::If { condition, then_branch, else_branch: Some(else_branch) },
        locals,
    ) =~= head + code_stmts(else_branch, locals) + seq![0x0Bu8]);
}

/// The body of a loop is emitted just before the loop's closing four bytes
/// (branch back, then the two `end`s): adding statements to an empty body
/// inserts their code there.
pub proof fn lemma_code_loop_body(
    condition: ExprV,
    body: Seq<StatementV>,
    locals: Seq<Seq<char>>,
)
    ensures
        ({
            let empty = code_stmt(StatementV::While { condition, body: seq![] }, locals);
            &&& empty.len() >= 4
            &&& code_stmt(StatementV::While { condition, body }, locals) == empty.subrange(
                0,
                empty.len() - 4,
            ) + code_stmts(body, locals) + empty.subrange(empty.len() - 4, empty.len() as int)
        }),
{
    let head = seq![0x02u8, 0x40, 0x03, 0x40] + code_expr(condition, locals) + seq![
        0x45u8,
        0x0D,
        0x01,
    ];
    let tail = seq![0x0Cu8, 0x00, 0x0B, 0x0B];
    let empty = code_stmt(StatementV::While { condition, body: seq![] }, locals);
    assert(code_stmts(Seq::<StatementV>::empty(), locals) =~= Seq::<u8>::empty());
    assert(empty =~= head + tail);
    assert(empty.subrange(0, empty.len() - 4) =~= head);
    assert(empty.subrange(empty.len() - 4, empty.len() as int) =~= tail);
    assert(code_stmt(StatementV::While { condition, body }, locals) =~= head + code_stmts(
        body,
        locals,
    ) + tail);
}

// ---------------------------------------------------------------- emitter

/// The texts of a sequence of names.
pub open spec fn names_view(s: Seq<String>) -> Seq<Seq<char>> {
    s.map_values(|x: String| x@)
}

/// The position of the first name in `locals` equal to `name`, if any.
fn find_local(locals: &Vec<String>, name: &String) -> (r: Option<usize>)
    ensures
        match r {
            Some(k) => {
                &&& k < locals@.len()
                &&& names_view(locals@)[k as int] == name@
                &&& forall|j: int| 0 <= j < k ==> names_view(locals@)[j] != name@
            },
            None => !names_view(locals@).contains(name@),
        },
{
    let mut k: usize = 0;
    while k < locals.len()
        invariant
            k <= locals@.len(),
            forall|j: int| 0 <= j < k ==> names_view(locals@)[j] != name@,
        decreases locals@.len() - k,
    {
        if locals[k] == *name {
            return Some(k);
        }
        k = k + 1;
    }
    None
}

/// Adds the locals that `stmts` declare, in order, to `locals`.
#[verifier::spinoff_prover]
fn find_locals(stmts: &[Statement], locals: &mut Vec<String>)
    ensures
        names_view(final(locals)@) == locals_seq(stmts_view(stmts@), names_view(old(locals)@)),
    decreases stmts@,
{
    let ghost ss = stmts_view(stmts@);
    let mut i: usize = 0;
    while i < stmts.len()
        invariant
            i <= stmts@.len(),
            ss == stmts_view(stmts@),
            names_view(locals@) == locals_seq(ss.take(i as int), names_view(old(locals)@)),
        decreases stmts@.len() - i,
    {
        let ghost before = names_view(locals@);
        assert(ss[i as int] == stmts@[i as int]@);
        match &stmts[i] {
            Statement::Let { name, .. } => {
                if find_local(locals, name).is_none() {
                    locals.push(name.clone());
                    assert(names_view(locals@) =~= before.push(name@));
                }
            },
            Statement::If { then_branch, else_branch, .. } => {
                find_locals(then_branch.as_slice(), locals);
                match else_branch {
                    Some(eb) => find_locals(eb.as_slice(), locals),
                    None => {},
                }
            },
            Statement::While { body, .. } => {
                find_locals(body.as_slice(), locals);
            },
            _ => {},
        }
        assert(names_view(locals@) == locals_stmt(ss[i as int], before));
        assert(ss.take(i + 1).drop_last() =~= ss.take(i as int));
        assert(ss.take(i + 1).last() == ss[i as int]);
        i = i + 1;
    }
    assert(ss.take(stmts@.len() as int) =~= ss);
}

/// The index of a declared local.
fn local_index(locals: &Vec<String>, name: &String) -> (idx: u8)
    requires
        names_view(locals@).contains(name@),
        names_view(locals@).no_duplicates(),
        locals@.len() <= 255,
    ensures
        idx == local_slot(names_view(locals@), name@),
{
    let ghost l = names_view(locals@);
    let k = find_local(locals, name).unwrap();
    proof {
        let c = l.index_of(name@);
        assert(l[k as int] == name@);
        assert(0 <= c < l.len() && l[c] == name@);
    }
    k as u8
}

/// Emits the instructions that evaluate `expr`.
#[verifier::spinoff_prover]
fn compile_expr(expr: &Expr, body: &mut Vec<u8>, locals: &Vec<String>)
    requires
        expr_refs_declared(expr@, names_view(locals@)),
        names_view(locals@).no_duplicates(),
        locals@.len() <= 255,
    ensures
        final(body)@ == old(body)@ + code_expr(expr@, names_view(locals@)),
    decreases expr,
{
    let ghost l = names_view(locals@);
    match expr {
        Expr::Number(n) => {
            body.push(0x41);
            write_sleb128(body, *n);
            assert(body@ =~= old(body)@ + code_expr(expr@, l));
        },
        Expr::Variable(name) => {
            let idx = local_index(locals, name);
            body.push(0x20);
            body.push(idx);
            assert(body@ =~= old(body)@ + code_expr(expr@, l));
        },
        Expr::BinaryOp { left, op, right } => {
            compile_expr(left, body, locals);
            compile_expr(right, body, locals);
            let ghost mid = body@;
            let o = op.as_str();
            if str_is(o, "+") {
                body.push(0x6A);
            } else if str_is(o, "-") {
                body.push(0x6B);
            } else if str_is(o, "<") {
                body.push(0x48);
            } else if str_is(o, "==") {
                body.push(0x46);
            } else if str_is(o, "!=") {
                body.push(0x47);
            } else if str_is(o, ">") {
                body.push(0x4A);
            } else if str_is(o, "<=") {
                body.push(0x4C);
            } else if str_is(o, ">=") {
                body.push(0x4E);
            }
            assert(body@ =~= mid + binary_opcode(op@));
            assert(body@ =~= old(body)@ + code_expr(expr@, l));
        },
        Expr::Call { name, args } => {
            let ghost av = exprs_view(args@);
            assert(av.len() == args@.len());
            if str_is(name.as_str(), "load_byte") {
                compile_expr(&args[0], body, locals);
                body.push(0x2D);
                body.push(0x00);
                body.push(0x00);
                assert(body@ =~= old(body)@ + code_expr(expr@, l));
            } else if str_is(name.as_str(), "store_byte") {
                compile_expr(&args[0], body, locals);
                compile_expr(&args[1], body, locals);
                body.push(0x3A);
                body.push(0x00);
                body.push(0x00);
                assert(body@ =~= old(body)@ + code_expr(expr@, l));
            } else {
                let mut j: usize = 0;
                #[verifier::loop_isolation(false)]
                while j < args.len()
                    invariant
                        j <= args@.len(),
                        av == exprs_view(args@),
                        av.len() == args@.len(),
                        l == names_view(locals@),
                        l.no_duplicates(),
                        locals@.len() <= 255,
                        forall|i: int| 0 <= i < av.len() ==> expr_refs_declared(#[trigger] av[i], l),
                        body@ == old(body)@ + code_exprs(av.take(j as int), l),
                    decreases args@.len() - j,
                {
                    assert(av[j as int] == args@[j as int]@);
                    compile_expr(&args[j], body, locals);
                    assert(av.take(j + 1).drop_last() =~= av.take(j as int));
                    j = j + 1;
                }
                assert(av.take(args@.len() as int) =~= av);
                let n = name.as_str();
                let idx: u8 = if str_is(n, "print") {
                    0
                } else if str_is(n, "read_file") {
                    1
                } else if str_is(n, "write_file") {
                    2
                } else if str_is(n, "alloc") {
                    3
                } else {
                    0
                };
                body.push(0x10);
                body.push(idx);
                assert(body@ =~= old(body)@ + code_expr(expr@, l));
            }
        },
    }
}


/// Emits the instructions of `stmts` in order.
#[verifier::spinoff_prover]
fn compile_stmts(stmts: &[Statement], body: &mut Vec<u8>, locals: &Vec<String>)
    requires
        stmts_refs_declared(stmts_view(stmts@), names_view(locals@)),
        stmts_lets_declared(stmts_view(stmts@), names_view(locals@)),
        names_view(locals@).no_duplicates(),
        locals@.len() <= 255,
    ensures
        final(body)@ == old(body)@ + code_stmts(stmts_view(stmts@), names_view(locals@)),
    decreases stmts@,
{
    let ghost ss = stmts_view(stmts@);
    let ghost l = names_view(locals@);
    let mut i: usize = 0;
    #[verifier::loop_isolation(false)]
    while i < stmts.len()
        invariant
            i <= stmts@.len(),
            ss == stmts_view(stmts@),
            l == names_view(locals@),
            body@ == old(body)@ + code_stmts(ss.take(i as int), l),
        decreases stmts@.len() - i,
    {
        let ghost before = body@;
        let ghost sv = ss[i as int];
        proof {
            lemma_stmts_view(stmts@);
        }
        assert(sv == stmts@[i as int]@);
        assert(stmt_refs_declared(sv, l));
        assert(stmt_lets_declared(sv, l));
        match &stmts[i] {
            Statement::Let { name, value } => {
                compile_expr(value, body, locals);
                let idx = local_index(locals, name);
                body.push(0x21);
                body.push(idx);
            },
            Statement::Assign { name, value } => {
                compile_expr(value, body, locals);
                let idx = local_index(locals, name);
                body.push(0x21);
                body.push(idx);
            },
            Statement::Expression(expr) => {
                compile_expr(expr, body, locals);
                match expr {
                    Expr::Call { name, .. } => {
                        let n = name.as_str();
                        if str_is(n, "read_file") || str_is(n, "alloc") || str_is(n, "load_byte") {
                            body.push(0x1A);
                        }
                    },
                    _ => {},
                }
            },
            Statement::If { condition, then_branch, else_branch } => {
                compile_expr(condition, body, locals);
                body.push(0x04);
                body.push(0x40);
                assert(sv->then_branch == stmts_view(then_branch@));
                assert(stmts_refs_declared(sv->then_branch, l));
                assert(stmts_lets_declared(sv->then_branch, l));
                compile_stmts(then_branch.as_slice(), body, locals);
                match else_branch {
                    Some(eb) => {
                        body.push(0x05);
                        let ghost ev = stmts_view(eb@);
                        assert(sv->else_branch == Some(ev));
                        assert forall|k: int| 0 <= k < ev.len() implies stmt_refs_declared(
                            #[trigger] ev[k],
                            l,
                        ) && stmt_lets_declared(ev[k], l) by {
                            assert(ev[k] == sv->else_branch->0[k]);
                        }
                        compile_stmts(eb.as_slice(), body, locals);
                    },
                    None => {},
                }
                body.push(0x0B);
            },
            Statement::While { condition, body: w_body } => {
                body.push(0x02);
                body.push(0x40);
                body.push(0x03);
                body.push(0x40);
                compile_expr(condition, body, locals);
                body.push(0x45);
                body.push(0x0D);
                body.push(0x01);
                assert(sv->While_body == stmts_view(w_body@));
                assert(stmts_refs_declared(sv->While_body, l));
                assert(stmts_lets_declared(sv->While_body, l));
                compile_stmts(w_body.as_slice(), body, locals);
                body.push(0x0C);
                body.push(0x00);
                body.push(0x0B);
                body.push(0x0B);
            },
            _ => {},
        }
        assert(body@ =~= before + code_stmt(sv, l));
        assert(ss.take(i + 1).drop_last() =~= ss.take(i as int));
        assert(ss.take(i + 1).last() == sv);
        i = i + 1;
    }
    assert(ss.take(stmts@.len() as int) =~= ss);
}


/// Whether every local that `expr` reads is among `locals`, and `load_byte` /
/// `store_byte` calls have the arguments that are read.
#[verifier::spinoff_prover]
fn check_expr_refs(expr: &Expr, locals: &Vec<String>) -> (r: bool)
    ensures
        r == expr_refs_declared(expr@, names_view(locals@)),
    decreases expr,
{
    match expr {
        Expr::Number(_) => true,
        Expr::Variable(name) => find_local(locals, name).is_some(),
        Expr::BinaryOp { left, right, .. } => check_expr_refs(left, locals) && check_expr_refs(
            right,
            locals,
        ),
        Expr::Call { name, args } => {
            let ghost av = exprs_view(args@);
            if str_is(name.as_str(), "load_byte") {
                args.len() >= 1 && check_expr_refs(&args[0], locals)
            } else if str_is(name.as_str(), "store_byte") {
                args.len() >= 2 && check_expr_refs(&args[0], locals) && check_expr_refs(
                    &args[1],
                    locals,
                )
            } else {
                let ghost ev = expr@;
                assert(ev == ExprV::Call { name: name@, args: av });
                assert(expr_refs_declared(ev, names_view(locals@)) == forall|k: int|
                    0 <= k < ev->Call_args.len() ==> expr_refs_declared(
                        #[trigger] ev->Call_args[k],
                        names_view(locals@),
                    ));
                let mut j: usize = 0;
                #[verifier::loop_isolation(false)]
                while j < args.len()
                    invariant
                        j <= args@.len(),
                        av == exprs_view(args@),
                        av.len() == args@.len(),
                        forall|k: int|
                            0 <= k < j ==> expr_refs_declared(#[trigger] av[k], names_view(locals@)),
                    decreases args@.len() - j,
                {
                    assert(av[j as int] == args@[j as int]@);
                    if !check_expr_refs(&args[j], locals) {
                        assert(expr@ == ExprV::Call { name: name@, args: av });
                        assert(!expr_refs_declared(av[j as int], names_view(locals@)));
                        return false;
                    }
                    j = j + 1;
                }
                true
            }
        },
    }
}

/// Whether every local that `stmts` read or assign is among `locals`, and
/// `load_byte` / `store_byte` calls have the arguments that are read.
#[verifier::spinoff_prover]
fn check_stmts_refs(stmts: &[Statement], locals: &Vec<String>) -> (r: bool)
    ensures
        r == stmts_refs_declared(stmts_view(stmts@), names_view(locals@)),
    decreases stmts@,
{
    let ghost ss = stmts_view(stmts@);
    let ghost l = names_view(locals@);
    let mut i: usize = 0;
    #[verifier::loop_isolation(false)]
    while i < stmts.len()
        invariant
            i <= stmts@.len(),
            ss == stmts_view(stmts@),
            l == names_view(locals@),
            forall|k: int| 0 <= k < i ==> stmt_refs_declared(#[trigger] ss[k], l),
        decreases stmts@.len() - i,
    {
        let ghost sv = ss[i as int];
        proof {
            lemma_stmts_view(stmts@);
        }
        assert(sv == stmts@[i as int]@);
        let ok = match &stmts[i] {
            Statement::Let { value, .. } => {
                let b = check_expr_refs(value, locals);
                assert(b == stmt_refs_declared(sv, l));
                b
            },
            Statement::Assign { name, value } => {
                let b = find_local(locals, name).is_some() && check_expr_refs(value, locals);
                assert(b == stmt_refs_declared(sv, l));
                b
            },
            Statement::Expression(e) => {
                let b = check_expr_refs(e, locals);
                assert(b == stmt_refs_declared(sv, l));
                b
            },
            Statement::If { condition, then_branch, else_branch } => {
                assert(sv->then_branch == stmts_view(then_branch@));
                let c = check_expr_refs(condition, locals);
                let t = check_stmts_refs(then_branch.as_slice(), locals);
                assert(t == stmts_refs_declared(sv->then_branch, l));
                assert(c == expr_refs_declared(sv->If_condition, l));
                let ghost else_ok = match sv->else_branch {
                    Some(eb) => forall|k: int|
                        0 <= k < eb.len() ==> stmt_refs_declared(#[trigger] eb[k], l),
                    None => true,
                };
                assert(stmt_refs_declared(sv, l) == (expr_refs_declared(sv->If_condition, l)
                    && stmts_refs_declared(sv->then_branch, l) && else_ok));
                let e = match else_branch {
                    Some(eb) => {
                        let ghost ev = stmts_view(eb@);
                        assert(sv->else_branch == Some(ev));
                        let b = check_stmts_refs(eb.as_slice(), locals);
                        assert(b == else_ok);
                        b
                    },
                    None => {
                        assert(sv->else_branch is None);
                        true
                    },
                };
                assert((c && t && e) == stmt_refs_declared(sv, l));
                c && t && e
            },
            Statement::While { condition, body } => {
                assert(sv->While_body == stmts_view(body@));
                check_expr_refs(condition, locals) && check_stmts_refs(body.as_slice(), locals)
            },
            Statement::Function { .. } => true,
        };
        assert(ok == stmt_refs_declared(sv, l));
        if !ok {
            return false;
        }
        i = i + 1;
    }
    true
}

/// Whether the emitter accepts `stmts`: at most 255 locals, and no read or
/// assignment of an undeclared local (nor a `load_byte` / `store_byte` call
/// without the arguments that are read).
pub fn can_emit(stmts: &[Statement]) -> (r: bool)
    ensures
        r == emittable(stmts_view(stmts@)),
{
    let mut locals: Vec<String> = Vec::new();
    assert(names_view(locals@) =~= Seq::<Seq<char>>::empty());
    find_locals(stmts, &mut locals);
    locals.len() <= 255 && check_stmts_refs(stmts, &locals)
}

/// The WebAssembly emitter.
pub struct WasmEmitter;

impl WasmEmitter {
    /// Compiles the top-level code of `stmts` into a WebAssembly module whose
    /// exported `main` runs it. Function declarations are not compiled.
    #[verifier::spinoff_prover]
    pub fn emit(stmts: &[Statement]) -> (wasm: Vec<u8>)
        requires
            emittable(stmts_view(stmts@)),
        ensures
            wasm@ == wasm_module(stmts_view(stmts@)),
    {
        let ghost ss = stmts_view(stmts@);
        let mut locals: Vec<String> = Vec::new();
        assert(names_view(locals@) =~= Seq::<Seq<char>>::empty());
        find_locals(stmts, &mut locals);
        proof {
            lemma_locals_distinct(ss);
            lemma_lets_have_locals(ss);
        }
        let local_count = locals.len();
        let mut body: Vec<u8> = Vec::new();
        if local_count > 0 {
            body.push(1);
            body.push(local_count as u8);
            body.push(0x7F);
        } else {
            body.push(0);
        }
        compile_stmts(stmts, &mut body, &locals);
        body.push(0x0B);
        assert(body@ =~= function_body(ss));

        let mut wasm: Vec<u8> = vec![0x00, 0x61, 0x73, 0x6D, 0x01, 0x00, 0x00, 0x00];

        let mut type_sec: Vec<u8> = vec![4];
        type_sec.append(&mut vec![0x60, 0x01, 0x7F, 0x00]);
        type_sec.append(&mut vec![0x60, 0x01, 0x7F, 0x01, 0x7F]);
        type_sec.append(&mut vec![0x60, 0x03, 0x7F, 0x7F, 0x7F, 0x01, 0x7F]);
        type_sec.append(&mut vec![0x60, 0x00, 0x00]);
        assert(type_sec@ =~= type_section_contents());
        wasm.push(1);
        wasm.push(type_sec.len() as u8);
        wasm.append(&mut type_sec);

        // Each import: module "env" (3 bytes), the field name, kind 0 (function), type index.
        let mut imp_sec: Vec<u8> = vec![4];
        // "print", type 0
        imp_sec.append(&mut vec![3, 101, 110, 118, 5, 112, 114, 105, 110, 116, 0, 0]);
        // "read_file", type 1
        imp_sec.append(
            &mut vec![3, 101, 110, 118, 9, 114, 101, 97, 100, 95, 102, 105, 108, 101, 0, 1],
        );
        // "write_file", type 2
        imp_sec.append(
            &mut vec![3, 101, 110, 118, 10, 119, 114, 105, 116, 101, 95, 102, 105, 108, 101, 0, 2],
        );
        // "alloc", type 1
        imp_sec.append(&mut vec![3, 101, 110, 118, 5, 97, 108, 108, 111, 99, 0, 1]);
        assert(imp_sec@ =~= import_section_contents());
        wasm.push(2);
        wasm.push(imp_sec.len() as u8);
        wasm.append(&mut imp_sec);

        // One function, of type 3.
        wasm.push(3);
        wasm.push(2);
        wasm.push(1);
        wasm.push(3);

        // One memory with a minimum of one page.
        wasm.push(5);
        wasm.push(3);
        wasm.push(1);
        wasm.push(0);
        wasm.push(1);

        // "memory" (memory 0) and "main" (function 4).
        let mut exp_sec: Vec<u8> = vec![2];
        exp_sec.append(&mut vec![6, 109, 101, 109, 111, 114, 121, 2, 0]);
        exp_sec.append(&mut vec![4, 109, 97, 105, 110, 0, 4]);
        assert(exp_sec@ =~= export_section_contents());
        wasm.push(7);
        wasm.push(exp_sec.len() as u8);
        wasm.append(&mut exp_sec);

        let mut code_sec: Vec<u8> = vec![1];
        code_sec.push(body.len() as u8);
        let ghost body_bytes = body@;
        code_sec.append(&mut body);
        assert(code_sec@ =~= seq![1u8, body_bytes.len() as u8] + body_bytes);

        wasm.push(10);
        wasm.push(code_sec.len() as u8);
        wasm.append(&mut code_sec);
        assert(wasm@ =~= wasm_module(ss));
        wasm
    }
}

} // verus!
