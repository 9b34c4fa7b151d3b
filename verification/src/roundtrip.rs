//! The parser reads back what a printer writes: for every well-formed program,
//! parsing the tokens of its printed form gives the program again.
use vstd::prelude::*;
use crate::ast::{ExprV, StatementV, TokenV};
use crate::parser::{
    after, expect_at, is_binary_operator, operator_text, parse_arg_list_at, parse_args_at,
    parse_block_at, parse_braced_at, parse_condition_at, parse_expr_at, parse_expr_rest_at,
    parse_function_at, parse_if_at, parse_let_at, parse_primary_at, parse_program_at,
    parse_statement_at, parse_while_at, peek_at, ParseErrorV,
};

verus! {

// ---------------------------------------------------------------- printer

/// The operator token whose text is `op`.
pub open spec fn operator_token(op: Seq<char>) -> TokenV {
    if op == "+"@ {
        TokenV::Plus
    } else if op == "-"@ {
        TokenV::Minus
    } else if op == "<"@ {
        TokenV::Less
    } else if op == "=="@ {
        TokenV::Equal
    } else if op == "!="@ {
        TokenV::NotEqual
    } else if op == "<="@ {
        TokenV::LessEqual
    } else if op == ">="@ {
        TokenV::GreaterEqual
    } else {
        TokenV::Greater
    }
}

pub open spec fn is_operator_text(op: Seq<char>) -> bool {
    op == "+"@ || op == "-"@ || op == "<"@ || op == "=="@ || op == "!="@ || op == "<="@ || op
        == ">="@ || op == ">"@
}

/// The tokens of `e` as an operand: an operation is put in parentheses.
pub open spec fn print_primary(e: ExprV) -> Seq<TokenV>
    decreases e, (if e is BinaryOp {
        2int
    } else {
        0int
    }),
{
    match e {
        ExprV::Number(n) => seq![TokenV::Number(n)],
        ExprV::Variable(v) => seq![TokenV::Identifier(v)],
        ExprV::Call { name, args } => seq![TokenV::Identifier(name), TokenV::OpenParen]
            + print_args(args),
        ExprV::BinaryOp { .. } => seq![TokenV::OpenParen] + print_expr(e) + seq![
            TokenV::CloseParen,
        ],
    }
}

/// The tokens of `e`: operations to the left, operands of an operator's right.
pub open spec fn print_expr(e: ExprV) -> Seq<TokenV>
    decreases e, 1int,
{
    match e {
        ExprV::BinaryOp { left, op, right } => print_expr(*left) + seq![operator_token(op)]
            + print_primary(*right),
        _ => print_primary(e),
    }
}

/// The arguments of a call and its closing parenthesis.
pub open spec fn print_args(args: Seq<ExprV>) -> Seq<TokenV>
    decreases args, 1int,
{
    if args.len() == 0 {
        seq![TokenV::CloseParen]
    } else {
        print_arg_list(args)
    }
}

/// `a, b, c)`: the arguments separated by commas, then `)`.
pub open spec fn print_arg_list(args: Seq<ExprV>) -> Seq<TokenV>
    decreases args, 0int,
{
    if args.len() == 0 {
        seq![TokenV::CloseParen]
    } else if args.len() == 1 {
        print_expr(args[0]) + seq![TokenV::CloseParen]
    } else {
        print_expr(args[0]) + seq![TokenV::Comma] + print_arg_list(args.drop_first())
    }
}

/// `{ statements }`
pub open spec fn print_braced(ss: Seq<StatementV>) -> Seq<TokenV>
    decreases ss, 1int,
{
    seq![TokenV::OpenBrace] + print_stmts(ss) + seq![TokenV::CloseBrace]
}

/// The tokens of a statement.
pub open spec fn print_stmt(s: StatementV) -> Seq<TokenV>
    decreases s, 0int,
{
    match s {
        StatementV::Let { name, value } => seq![
            TokenV::Let,
            TokenV::Identifier(name),
            TokenV::Assign,
        ] + print_expr(value) + seq![TokenV::Semicolon],
        StatementV::Assign { name, value } => seq![TokenV::Identifier(name), TokenV::Assign]
            + print_expr(value) + seq![TokenV::Semicolon],
        StatementV::Expression(e) => match e {
            ExprV::Call { name, args } => seq![TokenV::Identifier(name), TokenV::OpenParen]
                + print_args(args) + seq![TokenV::Semicolon],
            _ => seq![],
        },
        StatementV::Function { name, body } => seq![
            TokenV::Fn,
            TokenV::Identifier(name),
            TokenV::OpenParen,
            TokenV::CloseParen,
        ] + print_braced(body),
        StatementV::If { condition, then_branch, else_branch } => seq![
            TokenV::If,
            TokenV::OpenParen,
        ] + print_expr(condition) + seq![TokenV::CloseParen] + print_braced(then_branch)
            + match else_branch {
            Some(eb) => seq![TokenV::Else] + print_braced(eb),
            None => seq![],
        },
        StatementV::While { condition, body } => seq![TokenV::While, TokenV::OpenParen]
            + print_expr(condition) + seq![TokenV::CloseParen] + print_braced(body),
    }
}

/// The tokens of each statement in order.
pub open spec fn print_stmts(ss: Seq<StatementV>) -> Seq<TokenV>
    decreases ss, 0int,
{
    if ss.len() == 0 {
        seq![]
    } else {
        print_stmt(ss[0]) + print_stmts(ss.drop_first())
    }
}

// ---------------------------------------------------------------- well-formed trees

/// Every operator of `e` is one of the eight the language has.
pub open spec fn wf_expr(e: ExprV) -> bool
    decreases e,
{
    match e {
        ExprV::Number(_) => true,
        ExprV::Variable(_) => true,
        ExprV::BinaryOp { left, op, right } => is_operator_text(op) && wf_expr(*left) && wf_expr(
            *right,
        ),
        ExprV::Call { args, .. } => forall|i: int| 0 <= i < args.len() ==> wf_expr(#[trigger] args[i]),
    }
}

/// Every expression of `s` is well formed, and every expression statement is a call.
pub open spec fn wf_stmt(s: StatementV) -> bool
    decreases s,
{
    match s {
        StatementV::Let { value, .. } => wf_expr(value),
        StatementV::Assign { value, .. } => wf_expr(value),
        StatementV::Expression(e) => e is Call && wf_expr(e),
        StatementV::Function { body, .. } => forall|i: int|
            0 <= i < body.len() ==> wf_stmt(#[trigger] body[i]),
        StatementV::If { condition, then_branch, else_branch } => wf_expr(condition) && (forall|
            i: int,
        | 0 <= i < then_branch.len() ==> wf_stmt(#[trigger] then_branch[i])) && match else_branch {
            Some(eb) => forall|i: int| 0 <= i < eb.len() ==> wf_stmt(#[trigger] eb[i]),
            None => true,
        },
        StatementV::While { condition, body } => wf_expr(condition) && forall|i: int|
            0 <= i < body.len() ==> wf_stmt(#[trigger] body[i]),
    }
}

pub open spec fn wf_stmts(ss: Seq<StatementV>) -> bool {
    forall|i: int| 0 <= i < ss.len() ==> wf_stmt(#[trigger] ss[i])
}


// ---------------------------------------------------------------- positions

/// The tokens of `ts` from position `p` on begin with `x`.
pub open spec fn at(ts: Seq<TokenV>, p: int, x: Seq<TokenV>) -> bool {
    &&& 0 <= p
    &&& p + x.len() <= ts.len()
    &&& forall|i: int| 0 <= i < x.len() ==> ts[p + i] == #[trigger] x[i]
}

proof fn lemma_at_split(ts: Seq<TokenV>, p: int, a: Seq<TokenV>, b: Seq<TokenV>)
    requires
        at(ts, p, a + b),
    ensures
        at(ts, p, a),
        at(ts, p + a.len(), b),
{
    assert forall|i: int| 0 <= i < a.len() implies ts[p + i] == #[trigger] a[i] by {
        assert((a + b)[i] == a[i]);
    }
    assert forall|i: int| 0 <= i < b.len() implies ts[p + a.len() + i] == #[trigger] b[i] by {
        assert((a + b)[a.len() + i] == b[i]);
    }
}

proof fn lemma_at_split3(ts: Seq<TokenV>, p: int, a: Seq<TokenV>, b: Seq<TokenV>, c: Seq<TokenV>)
    requires
        at(ts, p, a + b + c),
    ensures
        at(ts, p, a),
        at(ts, p + a.len(), b),
        at(ts, p + a.len() + b.len(), c),
{
    lemma_at_split(ts, p, a + b, c);
    lemma_at_split(ts, p, a, b);
}

/// The token at `p` is the first of `x`.
proof fn lemma_at_first(ts: Seq<TokenV>, p: int, x: Seq<TokenV>)
    requires
        at(ts, p, x),
        x.len() > 0,
    ensures
        peek_at(ts, p) == Some(x[0]),
{
    assert(ts[p + 0] == x[0]);
}

/// A token that can start an operand.
pub open spec fn starts_operand(t: TokenV) -> bool {
    t is Number || t is Identifier || t is OpenParen
}

/// A token that can start a statement.
pub open spec fn starts_statement(t: TokenV) -> bool {
    t is Let || t is Identifier || t is Fn || t is If || t is While
}

/// Where an expression can end: no operator or `(` follows.
pub open spec fn ends_expr(ts: Seq<TokenV>, q: int) -> bool {
    match peek_at(ts, q) {
        Some(t) => !is_binary_operator(t) && t != TokenV::OpenParen,
        None => true,
    }
}

proof fn lemma_print_first(e: ExprV)
    ensures
        print_primary(e).len() > 0,
        starts_operand(print_primary(e)[0]),
        print_expr(e).len() > 0,
        starts_operand(print_expr(e)[0]),
    decreases e,
{
    match e {
        ExprV::BinaryOp { left, .. } => {
            lemma_print_first(*left);
        },
        _ => {},
    }
}

proof fn lemma_operator_token(op: Seq<char>)
    requires
        is_operator_text(op),
    ensures
        is_binary_operator(operator_token(op)),
        operator_text(operator_token(op)) == op,
{
}

// ---------------------------------------------------------------- expressions

proof fn lemma_parse_primary(e: ExprV, ts: Seq<TokenV>, p: int)
    requires
        wf_expr(e),
        at(ts, p, print_primary(e)),
        peek_at(ts, p + print_primary(e).len()) != Some(TokenV::OpenParen),
    ensures
        parse_primary_at(ts, p) == (Ok::<ExprV, ParseErrorV>(e), p + print_primary(e).len()),
    decreases e, (if e is BinaryOp {
        4int
    } else {
        0int
    }),
{
    let x = print_primary(e);
    match e {
        ExprV::Number(n) => {
            lemma_at_first(ts, p, x);
        },
        ExprV::Variable(v) => {
            lemma_at_first(ts, p, x);
        },
        ExprV::Call { name, args } => {
            let head = seq![TokenV::Identifier(name), TokenV::OpenParen];
            lemma_at_split(ts, p, head, print_args(args));
            lemma_at_first(ts, p, head);
            assert(ts[p + 1] == head[1]);
            lemma_parse_args(args, ts, p + 2);
        },
        ExprV::BinaryOp { .. } => {
            let open = seq![TokenV::OpenParen];
            let close = seq![TokenV::CloseParen];
            lemma_at_split3(ts, p, open, print_expr(e), close);
            lemma_at_first(ts, p, open);
            let q = p + 1 + print_expr(e).len();
            lemma_at_first(ts, q, close);
            lemma_parse_expr(e, ts, p + 1);
        },
    }
}

/// Parsing from `p` reads the tokens of `e` and goes on with `e` as the left operand.
proof fn lemma_parse_expr_prefix(e: ExprV, ts: Seq<TokenV>, p: int)
    requires
        wf_expr(e),
        at(ts, p, print_expr(e)),
        peek_at(ts, p + print_expr(e).len()) != Some(TokenV::OpenParen),
    ensures
        parse_expr_at(ts, p) == parse_expr_rest_at(ts, p + print_expr(e).len(), e),
    decreases e, 2int,
{
    match e {
        ExprV::BinaryOp { left, op, right } => {
            let l = *left;
            let r = *right;
            let opt = seq![operator_token(op)];
            lemma_at_split3(ts, p, print_expr(l), opt, print_primary(r));
            let q = p + print_expr(l).len();
            lemma_at_first(ts, q, opt);
            lemma_operator_token(op);
            lemma_parse_expr_prefix(l, ts, p);
            lemma_parse_primary(r, ts, q + 1);
            assert(ExprV::BinaryOp { left: Box::new(l), op: operator_text(operator_token(op)), right: Box::new(r) } == e);
        },
        _ => {
            lemma_parse_primary(e, ts, p);
        },
    }
}

proof fn lemma_parse_expr(e: ExprV, ts: Seq<TokenV>, p: int)
    requires
        wf_expr(e),
        at(ts, p, print_expr(e)),
        ends_expr(ts, p + print_expr(e).len()),
    ensures
        parse_expr_at(ts, p) == (Ok::<ExprV, ParseErrorV>(e), p + print_expr(e).len()),
    decreases e, 3int,
{
    lemma_parse_expr_prefix(e, ts, p);
}

proof fn lemma_parse_arg_list(args: Seq<ExprV>, ts: Seq<TokenV>, p: int, acc: Seq<ExprV>)
    requires
        args.len() > 0,
        forall|i: int| 0 <= i < args.len() ==> wf_expr(#[trigger] args[i]),
        at(ts, p, print_arg_list(args)),
    ensures
        parse_arg_list_at(ts, p, acc) == (Ok::<Seq<ExprV>, ParseErrorV>(acc + args), p
            + print_arg_list(args).len()),
    decreases args, 1int,
{
    let a0 = args[0];
    assert(wf_expr(a0));
    let q = p + print_expr(a0).len();
    if args.len() == 1 {
        let close = seq![TokenV::CloseParen];
        lemma_at_split(ts, p, print_expr(a0), close);
        lemma_at_first(ts, q, close);
        lemma_parse_expr(a0, ts, p);
        assert(acc.push(a0) =~= acc + args);
    } else {
        let rest = args.drop_first();
        let comma = seq![TokenV::Comma];
        lemma_at_split3(ts, p, print_expr(a0), comma, print_arg_list(rest));
        lemma_at_first(ts, q, comma);
        lemma_parse_expr(a0, ts, p);
        assert forall|i: int| 0 <= i < rest.len() implies wf_expr(#[trigger] rest[i]) by {
            assert(rest[i] == args[i + 1]);
        }
        lemma_parse_arg_list(rest, ts, q + 1, acc.push(a0));
        assert(acc.push(a0) + rest =~= acc + args);
    }
}

proof fn lemma_parse_args(args: Seq<ExprV>, ts: Seq<TokenV>, p: int)
    requires
        forall|i: int| 0 <= i < args.len() ==> wf_expr(#[trigger] args[i]),
        at(ts, p, print_args(args)),
    ensures
        parse_args_at(ts, p) == (Ok::<Seq<ExprV>, ParseErrorV>(args), p + print_args(args).len()),
    decreases args, 2int,
{
    lemma_at_first(ts, p, print_args(args));
    if args.len() == 0 {
        assert(args =~= seq![]);
    } else {
        lemma_print_first(args[0]);
        if args.len() == 1 {
            assert(print_arg_list(args)[0] == print_expr(args[0])[0]);
        } else {
            assert(print_arg_list(args)[0] == print_expr(args[0])[0]);
        }
        lemma_parse_arg_list(args, ts, p, seq![]);
        assert(Seq::<ExprV>::empty() + args =~= args);
    }
}


// ---------------------------------------------------------------- statements

proof fn lemma_print_stmt_first(s: StatementV)
    requires
        wf_stmt(s),
    ensures
        print_stmt(s).len() > 0,
        starts_statement(print_stmt(s)[0]),
{
}

proof fn lemma_print_stmts_first(ss: Seq<StatementV>)
    requires
        wf_stmts(ss),
        ss.len() > 0,
    ensures
        print_stmts(ss).len() > 0,
        starts_statement(print_stmts(ss)[0]),
{
    assert(wf_stmt(ss[0]));
    lemma_print_stmt_first(ss[0]);
}

proof fn lemma_wf_drop_first(ss: Seq<StatementV>)
    requires
        wf_stmts(ss),
        ss.len() > 0,
    ensures
        wf_stmts(ss.drop_first()),
        wf_stmt(ss[0]),
{
    assert forall|i: int| 0 <= i < ss.drop_first().len() implies wf_stmt(
        #[trigger] ss.drop_first()[i],
    ) by {
        assert(ss.drop_first()[i] == ss[i + 1]);
    }
}

/// `(` condition `)`
proof fn lemma_parse_condition(c: ExprV, ts: Seq<TokenV>, p: int)
    requires
        wf_expr(c),
        at(ts, p, seq![TokenV::OpenParen] + print_expr(c) + seq![TokenV::CloseParen]),
    ensures
        parse_condition_at(ts, p) == (Ok::<ExprV, ParseErrorV>(c), p + print_expr(c).len() + 2),
{
    let open = seq![TokenV::OpenParen];
    let close = seq![TokenV::CloseParen];
    lemma_at_split3(ts, p, open, print_expr(c), close);
    lemma_at_first(ts, p, open);
    lemma_at_first(ts, p + 1 + print_expr(c).len(), close);
    lemma_parse_expr(c, ts, p + 1);
}

#[verifier::spinoff_prover]
#[verifier::rlimit(40)]
proof fn lemma_parse_stmt(s: StatementV, ts: Seq<TokenV>, p: int)
    requires
        wf_stmt(s),
        at(ts, p, print_stmt(s)),
        peek_at(ts, p + print_stmt(s).len()) != Some(TokenV::Else),
    ensures
        parse_statement_at(ts, p) == (Ok::<StatementV, ParseErrorV>(s), p + print_stmt(s).len()),
    decreases s, 1int,
{
    lemma_at_first(ts, p, print_stmt(s));
    match s {
        StatementV::Let { .. } => {
            assert(peek_at(ts, p) == Some(TokenV::Let));
            lemma_parse_let(s, ts, p);
        },
        StatementV::Assign { .. } => lemma_parse_assign(s, ts, p),
        StatementV::Expression(_) => lemma_parse_call_stmt(s, ts, p),
        StatementV::Function { .. } => {
            assert(peek_at(ts, p) == Some(TokenV::Fn));
            lemma_parse_function(s, ts, p);
        },
        StatementV::If { .. } => {
            assert(peek_at(ts, p) == Some(TokenV::If));
            lemma_parse_if(s, ts, p);
        },
        StatementV::While { .. } => {
            assert(peek_at(ts, p) == Some(TokenV::While));
            lemma_parse_while(s, ts, p);
        },
    }
}

proof fn lemma_parse_let(s: StatementV, ts: Seq<TokenV>, p: int)
    requires
        s is Let,
        wf_stmt(s),
        at(ts, p, print_stmt(s)),
    ensures
        parse_let_at(ts, p) == (Ok::<StatementV, ParseErrorV>(s), p + print_stmt(s).len()),
{
    let name = s->Let_name;
    let value = s->Let_value;
    let head = seq![TokenV::Let, TokenV::Identifier(name), TokenV::Assign];
    let semi = seq![TokenV::Semicolon];
    lemma_at_split3(ts, p, head, print_expr(value), semi);
    lemma_at_first(ts, p, head);
    assert(ts[p + 1] == head[1]);
    assert(ts[p + 2] == head[2]);
    let q = p + 3 + print_expr(value).len();
    lemma_at_first(ts, q, semi);
    lemma_parse_expr(value, ts, p + 3);
}

proof fn lemma_parse_assign(s: StatementV, ts: Seq<TokenV>, p: int)
    requires
        s is Assign,
        wf_stmt(s),
        at(ts, p, print_stmt(s)),
    ensures
        parse_statement_at(ts, p) == (Ok::<StatementV, ParseErrorV>(s), p + print_stmt(s).len()),
{
    let name = s->Assign_name;
    let value = s->Assign_value;
    let head = seq![TokenV::Identifier(name), TokenV::Assign];
    let semi = seq![TokenV::Semicolon];
    lemma_at_split3(ts, p, head, print_expr(value), semi);
    lemma_at_first(ts, p, head);
    assert(ts[p + 1] == head[1]);
    let q = p + 2 + print_expr(value).len();
    lemma_at_first(ts, q, semi);
    lemma_parse_expr(value, ts, p + 2);
}

proof fn lemma_parse_call_stmt(s: StatementV, ts: Seq<TokenV>, p: int)
    requires
        s is Expression,
        wf_stmt(s),
        at(ts, p, print_stmt(s)),
    ensures
        parse_statement_at(ts, p) == (Ok::<StatementV, ParseErrorV>(s), p + print_stmt(s).len()),
{
    let e = s->Expression_0;
    let name = e->Call_name;
    let args = e->Call_args;
    let head = seq![TokenV::Identifier(name), TokenV::OpenParen];
    let semi = seq![TokenV::Semicolon];
    lemma_at_split3(ts, p, head, print_args(args), semi);
    lemma_at_first(ts, p, head);
    assert(ts[p + 1] == head[1]);
    let q = p + 2 + print_args(args).len();
    lemma_at_first(ts, q, semi);
    lemma_parse_args(args, ts, p + 2);
}

proof fn lemma_parse_function(s: StatementV, ts: Seq<TokenV>, p: int)
    requires
        s is Function,
        wf_stmt(s),
        at(ts, p, print_stmt(s)),
    ensures
        parse_function_at(ts, p) == (Ok::<StatementV, ParseErrorV>(s), p + print_stmt(s).len()),
    decreases s, 0int,
{
    let name = s->Function_name;
    let body = s->Function_body;
    let head = seq![TokenV::Fn, TokenV::Identifier(name), TokenV::OpenParen, TokenV::CloseParen];
    lemma_at_split(ts, p, head, print_braced(body));
    lemma_at_first(ts, p, head);
    assert(ts[p + 1] == head[1]);
    assert(ts[p + 2] == head[2]);
    assert(ts[p + 3] == head[3]);
    lemma_parse_braced(body, ts, p + 4);
}

proof fn lemma_parse_if(s: StatementV, ts: Seq<TokenV>, p: int)
    requires
        s is If,
        wf_stmt(s),
        at(ts, p, print_stmt(s)),
        peek_at(ts, p + print_stmt(s).len()) != Some(TokenV::Else),
    ensures
        parse_if_at(ts, p) == (Ok::<StatementV, ParseErrorV>(s), p + print_stmt(s).len()),
    decreases s, 0int,
{
    let condition = s->If_condition;
    let then_branch = s->then_branch;
    let else_branch = s->else_branch;
    let head = seq![TokenV::If];
    let cond = seq![TokenV::OpenParen] + print_expr(condition) + seq![TokenV::CloseParen];
    let tail = match else_branch {
        Some(eb) => seq![TokenV::Else] + print_braced(eb),
        None => seq![],
    };
    assert(print_stmt(s) =~= head + cond + print_braced(then_branch) + tail);
    lemma_at_split(ts, p, head + cond + print_braced(then_branch), tail);
    lemma_at_split3(ts, p, head, cond, print_braced(then_branch));
    lemma_at_first(ts, p, head);
    lemma_parse_condition(condition, ts, p + 1);
    let p2 = p + 1 + cond.len();
    lemma_parse_braced(then_branch, ts, p2);
    let p3 = p2 + print_braced(then_branch).len();
    match else_branch {
        Some(eb) => {
            lemma_at_split(ts, p3, seq![TokenV::Else], print_braced(eb));
            lemma_at_first(ts, p3, seq![TokenV::Else]);
            lemma_parse_braced(eb, ts, p3 + 1);
        },
        None => {},
    }
}

proof fn lemma_parse_while(s: StatementV, ts: Seq<TokenV>, p: int)
    requires
        s is While,
        wf_stmt(s),
        at(ts, p, print_stmt(s)),
    ensures
        parse_while_at(ts, p) == (Ok::<StatementV, ParseErrorV>(s), p + print_stmt(s).len()),
    decreases s, 0int,
{
    let condition = s->While_condition;
    let body = s->While_body;
    let head = seq![TokenV::While];
    let cond = seq![TokenV::OpenParen] + print_expr(condition) + seq![TokenV::CloseParen];
    assert(print_stmt(s) =~= head + cond + print_braced(body));
    lemma_at_split3(ts, p, head, cond, print_braced(body));
    lemma_at_first(ts, p, head);
    lemma_parse_condition(condition, ts, p + 1);
    lemma_parse_braced(body, ts, p + 1 + cond.len());
}

proof fn lemma_parse_braced(ss: Seq<StatementV>, ts: Seq<TokenV>, p: int)
    requires
        wf_stmts(ss),
        at(ts, p, print_braced(ss)),
    ensures
        parse_braced_at(ts, p) == (Ok::<Seq<StatementV>, ParseErrorV>(ss), p + print_braced(
            ss,
        ).len()),
    decreases ss, 3int,
{
    let open = seq![TokenV::OpenBrace];
    let close = seq![TokenV::CloseBrace];
    lemma_at_split3(ts, p, open, print_stmts(ss), close);
    lemma_at_first(ts, p, open);
    let q = p + 1 + print_stmts(ss).len();
    lemma_at_first(ts, q, close);
    lemma_parse_block(ss, ts, p + 1, seq![]);
    assert(Seq::<StatementV>::empty() + ss =~= ss);
}

proof fn lemma_parse_block(ss: Seq<StatementV>, ts: Seq<TokenV>, p: int, acc: Seq<StatementV>)
    requires
        wf_stmts(ss),
        at(ts, p, print_stmts(ss)),
        peek_at(ts, p + print_stmts(ss).len()) is None || peek_at(ts, p + print_stmts(ss).len())
            == Some(TokenV::CloseBrace),
    ensures
        parse_block_at(ts, p, acc) == (Ok::<Seq<StatementV>, ParseErrorV>(acc + ss), p
            + print_stmts(ss).len()),
    decreases ss, 2int,
{
    if ss.len() == 0 {
        assert(acc + ss =~= acc);
    } else {
        let s0 = ss[0];
        let rest = ss.drop_first();
        lemma_wf_drop_first(ss);
        lemma_at_split(ts, p, print_stmt(s0), print_stmts(rest));
        lemma_print_stmt_first(s0);
        lemma_at_first(ts, p, print_stmt(s0));
        let q = p + print_stmt(s0).len();
        if rest.len() > 0 {
            lemma_print_stmts_first(rest);
            lemma_at_first(ts, q, print_stmts(rest));
        }
        lemma_parse_stmt(s0, ts, p);
        lemma_parse_block(rest, ts, q, acc.push(s0));
        assert(acc.push(s0) + rest =~= acc + ss);
    }
}

proof fn lemma_parse_program(ss: Seq<StatementV>, ts: Seq<TokenV>, p: int, acc: Seq<StatementV>)
    requires
        wf_stmts(ss),
        at(ts, p, print_stmts(ss)),
        p + print_stmts(ss).len() == ts.len(),
    ensures
        parse_program_at(ts, p, acc) == (Ok::<Seq<StatementV>, ParseErrorV>(acc + ss), ts.len() as int),
    decreases ss,
{
    if ss.len() == 0 {
        assert(acc + ss =~= acc);
    } else {
        let s0 = ss[0];
        let rest = ss.drop_first();
        lemma_wf_drop_first(ss);
        lemma_at_split(ts, p, print_stmt(s0), print_stmts(rest));
        lemma_print_stmt_first(s0);
        lemma_at_first(ts, p, print_stmt(s0));
        let q = p + print_stmt(s0).len();
        if rest.len() > 0 {
            lemma_print_stmts_first(rest);
            lemma_at_first(ts, q, print_stmts(rest));
        }
        lemma_parse_stmt(s0, ts, p);
        lemma_parse_program(rest, ts, q, acc.push(s0));
        assert(acc.push(s0) + rest =~= acc + ss);
    }
}

/// The parser reads back every well-formed program from its printed tokens,
/// and reads all of them.
pub proof fn lemma_parse_print(ss: Seq<StatementV>)
    requires
        wf_stmts(ss),
    ensures
        parse_program_at(print_stmts(ss), 0, seq![]) == (Ok::<Seq<StatementV>, ParseErrorV>(ss), print_stmts(ss).len() as int),
{
    let ts = print_stmts(ss);
    assert forall|i: int| 0 <= i < ts.len() implies ts[0 + i] == #[trigger] ts[i] by {}
    lemma_parse_program(ss, ts, 0, seq![]);
    assert(Seq::<StatementV>::empty() + ss =~= ss);
}


/// The tokens of `x` in parentheses, then the operator `op`, then the operand `q`.
pub open spec fn grouped_left_tokens(x: ExprV, op: Seq<char>, q: ExprV) -> Seq<TokenV> {
    seq![TokenV::OpenParen] + print_expr(x) + seq![TokenV::CloseParen, operator_token(op)]
        + print_primary(q)
}

/// A parenthesized expression is an operand like any other, also on the left of
/// an operator: `( x ) op q` is read as the operation `op` on `x` and `q`, and
/// the parser stops after `q` only where no operator follows.
pub proof fn lemma_parse_grouped_left(x: ExprV, op: Seq<char>, q: ExprV, ts: Seq<TokenV>, p: int)
    requires
        wf_expr(x),
        wf_expr(q),
        is_operator_text(op),
        at(ts, p, grouped_left_tokens(x, op, q)),
        ends_expr(ts, p + grouped_left_tokens(x, op, q).len()),
    ensures
        parse_expr_at(ts, p) == (
            Ok::<ExprV, ParseErrorV>(
                ExprV::BinaryOp { left: Box::new(x), op, right: Box::new(q) },
            ),
            p + grouped_left_tokens(x, op, q).len(),
        ),
{
    let open = seq![TokenV::OpenParen];
    let close = seq![TokenV::CloseParen];
    let opt = seq![operator_token(op)];
    let px = print_expr(x);
    assert(grouped_left_tokens(x, op, q) =~= open + px + close + opt + print_primary(q));
    lemma_at_split(ts, p, open + px + close + opt, print_primary(q));
    lemma_at_split(ts, p, open + px + close, opt);
    lemma_at_split3(ts, p, open, px, close);
    lemma_at_first(ts, p, open);
    let p1 = p + 1 + px.len();
    lemma_at_first(ts, p1, close);
    lemma_at_first(ts, p1 + 1, opt);
    lemma_parse_expr(x, ts, p + 1);
    assert(parse_primary_at(ts, p) == (Ok::<ExprV, ParseErrorV>(x), p1 + 1));
    lemma_operator_token(op);
    let end = p + grouped_left_tokens(x, op, q).len();
    assert(end == p1 + 2 + print_primary(q).len());
    lemma_parse_primary(q, ts, p1 + 2);
    let e = ExprV::BinaryOp { left: Box::new(x), op, right: Box::new(q) };
    assert(parse_expr_rest_at(ts, end, e) == (Ok::<ExprV, ParseErrorV>(e), end));
    assert(parse_expr_rest_at(ts, p1 + 1, x) == parse_expr_rest_at(ts, end, e));
}
} // verus!
