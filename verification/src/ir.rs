//! The linear, stack-based log representation of a program.
use vstd::prelude::*;
use crate::ast::{
    Expr, ExprV, LogIR, LogIRV, Statement, StatementV, exprs_view, stmts_view, log_irs_view,
    group_view_lemmas, lemma_stmts_view,
};
use crate::emit::{is_load_byte, is_store_byte};
use crate::text::str_is;

verus! {

broadcast use group_view_lemmas;

/// The instruction of a binary operator; an unknown operator has none.
pub open spec fn operator_ir(op: Seq<char>) -> Seq<LogIRV> {
    if op == "+"@ {
        seq![LogIRV::Add]
    } else if op == "-"@ {
        seq![LogIRV::Sub]
    } else if op == "<"@ {
        seq![LogIRV::Less]
    } else if op == "=="@ {
        seq![LogIRV::Equal]
    } else if op == "!="@ {
        seq![LogIRV::NotEqual]
    } else if op == "<="@ {
        seq![LogIRV::LessEqual]
    } else if op == ">="@ {
        seq![LogIRV::GreaterEqual]
    } else if op == ">"@ {
        seq![LogIRV::Greater]
    } else {
        seq![]
    }
}

/// The instructions that evaluate `e`, operands before operators.
pub open spec fn expr_ir(e: ExprV) -> Seq<LogIRV>
    decreases e,
{
    match e {
        ExprV::Number(n) => seq![LogIRV::Push(n)],
        ExprV::Variable(v) => seq![LogIRV::Load(v)],
        ExprV::BinaryOp { left, op, right } => expr_ir(*left) + expr_ir(*right) + operator_ir(op),
        ExprV::Call { name, args } => if is_load_byte(name) {
            if args.len() >= 1 {
                expr_ir(args[0]) + seq![LogIRV::LoadByte]
            } else {
                seq![]
            }
        } else if is_store_byte(name) {
            if args.len() >= 2 {
                expr_ir(args[0]) + expr_ir(args[1]) + seq![LogIRV::StoreByte]
            } else {
                seq![]
            }
        } else {
            exprs_ir(args) + seq![LogIRV::Call(name)]
        },
    }
}

/// The instructions that evaluate each of `es` in order.
pub open spec fn exprs_ir(es: Seq<ExprV>) -> Seq<LogIRV>
    decreases es,
{
    if es.len() == 0 {
        seq![]
    } else {
        exprs_ir(es.drop_last()) + expr_ir(es.last())
    }
}

/// The instructions of `s`; a function declaration contributes its body.
pub open spec fn stmt_ir(s: StatementV) -> Seq<LogIRV>
    decreases s,
{
    match s {
        StatementV::Function { body, .. } => stmts_ir(body),
        StatementV::Let { name, value } => expr_ir(value) + seq![LogIRV::Store(name)],
        StatementV::Assign { name, value } => expr_ir(value) + seq![LogIRV::Store(name)],
        StatementV::Expression(e) => expr_ir(e),
        StatementV::If { condition, then_branch, else_branch } => expr_ir(condition) + seq![
            LogIRV::IfStart,
        ] + stmts_ir(then_branch) + match else_branch {
            Some(eb) => seq![LogIRV::ElseStart] + stmts_ir(eb),
            None => seq![],
        } + seq![LogIRV::LoopEnd],
        StatementV::While { condition, body } => seq![LogIRV::WhileStart] + expr_ir(condition)
            + stmts_ir(body) + seq![LogIRV::LoopEnd],
    }
}

/// The instructions of each statement of `ss` in order.
pub open spec fn stmts_ir(ss: Seq<StatementV>) -> Seq<LogIRV>
    decreases ss,
{
    if ss.len() == 0 {
        seq![]
    } else {
        stmts_ir(ss.drop_last()) + stmt_ir(ss.last())
    }
}

/// Every call of `load_byte` in `e` has an argument and every call of
/// `store_byte` two (the arguments that are read).
pub open spec fn expr_ir_ok(e: ExprV) -> bool
    decreases e,
{
    match e {
        ExprV::Number(_) => true,
        ExprV::Variable(_) => true,
        ExprV::BinaryOp { left, right, .. } => expr_ir_ok(*left) && expr_ir_ok(*right),
        ExprV::Call { name, args } => if is_load_byte(name) {
            args.len() >= 1 && expr_ir_ok(args[0])
        } else if is_store_byte(name) {
            args.len() >= 2 && expr_ir_ok(args[0]) && expr_ir_ok(args[1])
        } else {
            forall|i: int| 0 <= i < args.len() ==> expr_ir_ok(#[trigger] args[i])
        },
    }
}

/// Every call of `load_byte` and `store_byte` in `s` has the arguments that are read.
pub open spec fn stmt_ir_ok(s: StatementV) -> bool
    decreases s,
{
    match s {
        StatementV::Function { body, .. } => forall|i: int|
            0 <= i < body.len() ==> stmt_ir_ok(#[trigger] body[i]),
        StatementV::Let { value, .. } => expr_ir_ok(value),
        StatementV::Assign { value, .. } => expr_ir_ok(value),
        StatementV::Expression(e) => expr_ir_ok(e),
        StatementV::If { condition, then_branch, else_branch } => expr_ir_ok(condition) && (forall|
            i: int,
        | 0 <= i < then_branch.len() ==> stmt_ir_ok(#[trigger] then_branch[i])) && match else_branch {
            Some(eb) => forall|i: int| 0 <= i < eb.len() ==> stmt_ir_ok(#[trigger] eb[i]),
            None => true,
        },
        StatementV::While { condition, body } => expr_ir_ok(condition) && forall|i: int|
            0 <= i < body.len() ==> stmt_ir_ok(#[trigger] body[i]),
    }
}

pub open spec fn stmts_ir_ok(ss: Seq<StatementV>) -> bool {
    forall|i: int| 0 <= i < ss.len() ==> stmt_ir_ok(#[trigger] ss[i])
}

/// Appends a copy of `name` wrapped by `f`'s instruction.
fn push_ir(list: &mut Vec<LogIR>, i: LogIR)
    ensures
        log_irs_view(final(list)@) == log_irs_view(old(list)@).push(i@),
{
    list.push(i);
    assert(log_irs_view(list@) =~= log_irs_view(old(list)@).push(i@));
}

#[verifier::spinoff_prover]
fn generate_expr_log_ir(expr: &Expr, list: &mut Vec<LogIR>)
    requires
        expr_ir_ok(expr@),
    ensures
        log_irs_view(final(list)@) == log_irs_view(old(list)@) + expr_ir(expr@),
    decreases expr,
{
    let ghost start = log_irs_view(list@);
    match expr {
        Expr::Number(n) => {
            push_ir(list, LogIR::Push(*n));
        },
        Expr::Variable(v) => {
            push_ir(list, LogIR::Load(v.clone()));
        },
        Expr::BinaryOp { left, op, right } => {
            generate_expr_log_ir(left, list);
            generate_expr_log_ir(right, list);
            let ghost mid = log_irs_view(list@);
            let o = op.as_str();
            if str_is(o, "+") {
                push_ir(list, LogIR::Add);
            } else if str_is(o, "-") {
                push_ir(list, LogIR::Sub);
            } else if str_is(o, "<") {
                push_ir(list, LogIR::Less);
            } else if str_is(o, "==") {
                push_ir(list, LogIR::Equal);
            } else if str_is(o, "!=") {
                push_ir(list, LogIR::NotEqual);
            } else if str_is(o, "<=") {
                push_ir(list, LogIR::LessEqual);
            } else if str_is(o, ">=") {
                push_ir(list, LogIR::GreaterEqual);
            } else if str_is(o, ">") {
                push_ir(list, LogIR::Greater);
            }
            assert(log_irs_view(list@) =~= mid + operator_ir(op@));
        },
        Expr::Call { name, args } => {
            let ghost av = exprs_view(args@);
            if str_is(name.as_str(), "load_byte") {
                generate_expr_log_ir(&args[0], list);
                push_ir(list, LogIR::LoadByte);
            } else if str_is(name.as_str(), "store_byte") {
                generate_expr_log_ir(&args[0], list);
                generate_expr_log_ir(&args[1], list);
                push_ir(list, LogIR::StoreByte);
            } else {
                let mut j: usize = 0;
                #[verifier::loop_isolation(false)]
                while j < args.len()
                    invariant
                        j <= args@.len(),
                        av == exprs_view(args@),
                        av.len() == args@.len(),
                        log_irs_view(list@) == start + exprs_ir(av.take(j as int)),
                    decreases args@.len() - j,
                {
                    assert(av[j as int] == args@[j as int]@);
                    generate_expr_log_ir(&args[j], list);
                    assert(av.take(j + 1).drop_last() =~= av.take(j as int));
                    j = j + 1;
                }
                assert(av.take(args@.len() as int) =~= av);
                push_ir(list, LogIR::Call(name.clone()));
            }
        },
    }
    assert(log_irs_view(list@) =~= start + expr_ir(expr@));
}

/// Appends the log instructions of `stmts` to `list`.
#[verifier::spinoff_prover]
pub fn generate_log_ir(stmts: &[Statement], list: &mut Vec<LogIR>)
    requires
        stmts_ir_ok(stmts_view(stmts@)),
    ensures
        log_irs_view(final(list)@) == log_irs_view(old(list)@) + stmts_ir(stmts_view(stmts@)),
    decreases stmts@,
{
    let ghost ss = stmts_view(stmts@);
    let ghost start = log_irs_view(list@);
    let mut i: usize = 0;
    #[verifier::loop_isolation(false)]
    while i < stmts.len()
        invariant
            i <= stmts@.len(),
            ss == stmts_view(stmts@),
            log_irs_view(list@) == start + stmts_ir(ss.take(i as int)),
        decreases stmts@.len() - i,
    {
        let ghost before = log_irs_view(list@);
        let ghost sv = ss[i as int];
        proof {
            lemma_stmts_view(stmts@);
        }
        assert(sv == stmts@[i as int]@);
        assert(stmt_ir_ok(sv));
        match &stmts[i] {
            Statement::Function { body, .. } => {
                assert(sv->Function_body == stmts_view(body@));
                assert(stmts_ir_ok(sv->Function_body));
                generate_log_ir(body.as_slice(), list);
            },
            Statement::Let { name, value } => {
                generate_expr_log_ir(value, list);
                push_ir(list, LogIR::Store(name.clone()));
            },
            Statement::Assign { name, value } => {
                generate_expr_log_ir(value, list);
                push_ir(list, LogIR::Store(name.clone()));
            },
            Statement::Expression(e) => {
                generate_expr_log_ir(e, list);
            },
            Statement::If { condition, then_branch, else_branch } => {
                generate_expr_log_ir(condition, list);
                push_ir(list, LogIR::IfStart);
                assert(sv->then_branch == stmts_view(then_branch@));
                assert(stmts_ir_ok(sv->then_branch));
                generate_log_ir(then_branch.as_slice(), list);
                match else_branch {
                    Some(eb) => {
                        push_ir(list, LogIR::ElseStart);
                        let ghost ev = stmts_view(eb@);
                        assert(sv->else_branch == Some(ev));
                        assert forall|k: int| 0 <= k < ev.len() implies stmt_ir_ok(
                            #[trigger] ev[k],
                        ) by {
                            assert(ev[k] == sv->else_branch->0[k]);
                        }
                        generate_log_ir(eb.as_slice(), list);
                    },
                    None => {},
                }
                push_ir(list, LogIR::LoopEnd);
            },
            Statement::While { condition, body } => {
                push_ir(list, LogIR::WhileStart);
                generate_expr_log_ir(condition, list);
                assert(sv->While_body == stmts_view(body@));
                assert(stmts_ir_ok(sv->While_body));
                generate_log_ir(body.as_slice(), list);
                push_ir(list, LogIR::LoopEnd);
            },
        }
        assert(log_irs_view(list@) =~= before + stmt_ir(sv));
        assert(ss.take(i + 1).drop_last() =~= ss.take(i as int));
        assert(ss.take(i + 1).last() == sv);
        i = i + 1;
    }
    assert(ss.take(stmts@.len() as int) =~= ss);
}


/// Whether every `load_byte` / `store_byte` call in `expr` has the arguments read.
#[verifier::spinoff_prover]
fn check_expr_ir(expr: &Expr) -> (r: bool)
    ensures
        r == expr_ir_ok(expr@),
    decreases expr,
{
    match expr {
        Expr::Number(_) => true,
        Expr::Variable(_) => true,
        Expr::BinaryOp { left, right, .. } => check_expr_ir(left) && check_expr_ir(right),
        Expr::Call { name, args } => {
            let ghost av = exprs_view(args@);
            if str_is(name.as_str(), "load_byte") {
                args.len() >= 1 && check_expr_ir(&args[0])
            } else if str_is(name.as_str(), "store_byte") {
                args.len() >= 2 && check_expr_ir(&args[0]) && check_expr_ir(&args[1])
            } else {
                let ghost ev = expr@;
                assert(ev == ExprV::Call { name: name@, args: av });
                assert(expr_ir_ok(ev) == forall|k: int|
                    0 <= k < ev->Call_args.len() ==> expr_ir_ok(#[trigger] ev->Call_args[k]));
                let mut j: usize = 0;
                #[verifier::loop_isolation(false)]
                while j < args.len()
                    invariant
                        j <= args@.len(),
                        av == exprs_view(args@),
                        av.len() == args@.len(),
                        forall|k: int| 0 <= k < j ==> expr_ir_ok(#[trigger] av[k]),
                    decreases args@.len() - j,
                {
                    assert(av[j as int] == args@[j as int]@);
                    if !check_expr_ir(&args[j]) {
                        return false;
                    }
                    j = j + 1;
                }
                true
            }
        },
    }
}

/// Whether every `load_byte` call of `stmts` has an argument and every
/// `store_byte` call two: what [`generate_log_ir`] reads.
#[verifier::spinoff_prover]
pub fn can_generate_log_ir(stmts: &[Statement]) -> (r: bool)
    ensures
        r == stmts_ir_ok(stmts_view(stmts@)),
    decreases stmts@,
{
    let ghost ss = stmts_view(stmts@);
    let mut i: usize = 0;
    #[verifier::loop_isolation(false)]
    while i < stmts.len()
        invariant
            i <= stmts@.len(),
            ss == stmts_view(stmts@),
            forall|k: int| 0 <= k < i ==> stmt_ir_ok(#[trigger] ss[k]),
        decreases stmts@.len() - i,
    {
        let ghost sv = ss[i as int];
        proof {
            lemma_stmts_view(stmts@);
        }
        assert(sv == stmts@[i as int]@);
        let ok = match &stmts[i] {
            Statement::Function { body, .. } => {
                assert(sv->Function_body == stmts_view(body@));
                can_generate_log_ir(body.as_slice())
            },
            Statement::Let { value, .. } => check_expr_ir(value),
            Statement::Assign { value, .. } => check_expr_ir(value),
            Statement::Expression(e) => check_expr_ir(e),
            Statement::If { condition, then_branch, else_branch } => {
                assert(sv->then_branch == stmts_view(then_branch@));
                let c = check_expr_ir(condition);
                let t = can_generate_log_ir(then_branch.as_slice());
                let ghost else_ok = match sv->else_branch {
                    Some(eb) => forall|k: int| 0 <= k < eb.len() ==> stmt_ir_ok(#[trigger] eb[k]),
                    None => true,
                };
                assert(stmt_ir_ok(sv) == (expr_ir_ok(sv->If_condition) && stmts_ir_ok(
                    sv->then_branch,
                ) && else_ok));
                let e = match else_branch {
                    Some(eb) => {
                        assert(sv->else_branch == Some(stmts_view(eb@)));
                        can_generate_log_ir(eb.as_slice())
                    },
                    None => true,
                };
                c && t && e
            },
            Statement::While { condition, body } => {
                assert(sv->While_body == stmts_view(body@));
                check_expr_ir(condition) && can_generate_log_ir(body.as_slice())
            },
        };
        assert(ok == stmt_ir_ok(sv));
        if !ok {
            return false;
        }
        i = i + 1;
    }
    true
}


// ---------------------------------------------------------------- laws

/// Lowering a sequence of statements is lowering each part in turn: two calls
/// of [`generate_log_ir`] on `a` then `b` append what one call on `a + b` appends.
pub proof fn lemma_log_ir_concat(a: Seq<StatementV>, b: Seq<StatementV>)
    ensures
        stmts_ir(a + b) == stmts_ir(a) + stmts_ir(b),
    decreases b.len(),
{
    if b.len() == 0 {
        assert(a + b =~= a);
        assert(stmts_ir(a) + stmts_ir(b) =~= stmts_ir(a));
    } else {
        lemma_log_ir_concat(a, b.drop_last());
        assert((a + b).drop_last() =~= a + b.drop_last());
        assert((a + b).last() == b.last());
        assert(stmts_ir(a + b) =~= stmts_ir(a) + stmts_ir(b));
    }
}

/// How an instruction changes the number of open blocks.
pub open spec fn block_delta(i: LogIRV) -> int {
    match i {
        LogIRV::IfStart => 1,
        LogIRV::WhileStart => 1,
        LogIRV::LoopEnd => -1,
        _ => 0,
    }
}

/// The number of blocks that `s` leaves open.
pub open spec fn open_blocks(s: Seq<LogIRV>) -> int
    decreases s.len(),
{
    if s.len() == 0 {
        0
    } else {
        open_blocks(s.drop_last()) + block_delta(s.last())
    }
}

/// `s` closes every block it opens, never closes one it did not open, and has
/// at least `m` blocks open at each `ElseStart`.
pub open spec fn balanced(s: Seq<LogIRV>, m: int) -> bool {
    &&& open_blocks(s) == 0
    &&& forall|k: int| 0 <= k <= s.len() ==> #[trigger] open_blocks(s.take(k)) >= 0
    &&& forall|k: int|
        0 <= k < s.len() && s[k] == LogIRV::ElseStart ==> #[trigger] open_blocks(s.take(k)) >= m
}

/// `s` has no block instruction at all.
pub open spec fn flat(s: Seq<LogIRV>) -> bool {
    forall|k: int|
        0 <= k < s.len() ==> block_delta(#[trigger] s[k]) == 0 && s[k] != LogIRV::ElseStart
}

proof fn lemma_open_blocks_concat(a: Seq<LogIRV>, b: Seq<LogIRV>)
    ensures
        open_blocks(a + b) == open_blocks(a) + open_blocks(b),
    decreases b.len(),
{
    if b.len() == 0 {
        assert(a + b =~= a);
    } else {
        lemma_open_blocks_concat(a, b.drop_last());
        assert((a + b).drop_last() =~= a + b.drop_last());
    }
}

proof fn lemma_open_blocks_single(i: LogIRV)
    ensures
        open_blocks(seq![i]) == block_delta(i),
        open_blocks(Seq::<LogIRV>::empty()) == 0,
{
    reveal_with_fuel(open_blocks, 2);
    assert(seq![i].drop_last() =~= Seq::<LogIRV>::empty());
}

proof fn lemma_flat_open_blocks(s: Seq<LogIRV>)
    requires
        flat(s),
    ensures
        open_blocks(s) == 0,
    decreases s.len(),
{
    if s.len() > 0 {
        assert(block_delta(s[s.len() - 1]) == 0);
        assert forall|k: int| 0 <= k < s.drop_last().len() implies block_delta(
            #[trigger] s.drop_last()[k],
        ) == 0 && s.drop_last()[k] != LogIRV::ElseStart by {
            assert(s.drop_last()[k] == s[k]);
        }
        lemma_flat_open_blocks(s.drop_last());
    }
}

proof fn lemma_flat_balanced(s: Seq<LogIRV>, m: int)
    requires
        flat(s),
    ensures
        balanced(s, m),
{
    lemma_flat_open_blocks(s);
    assert forall|k: int| 0 <= k <= s.len() implies #[trigger] open_blocks(s.take(k)) >= 0 by {
        assert forall|j: int| 0 <= j < s.take(k).len() implies block_delta(#[trigger] s.take(k)[j])
            == 0 && s.take(k)[j] != LogIRV::ElseStart by {
            assert(s.take(k)[j] == s[j]);
        }
        lemma_flat_open_blocks(s.take(k));
    }
}

proof fn lemma_flat_concat(a: Seq<LogIRV>, b: Seq<LogIRV>)
    requires
        flat(a),
        flat(b),
    ensures
        flat(a + b),
{
    assert forall|k: int| 0 <= k < (a + b).len() implies block_delta(#[trigger] (a + b)[k]) == 0
        && (a + b)[k] != LogIRV::ElseStart by {
        if k < a.len() {
            assert((a + b)[k] == a[k]);
        } else {
            assert((a + b)[k] == b[k - a.len()]);
        }
    }
}

proof fn lemma_balanced_concat(a: Seq<LogIRV>, b: Seq<LogIRV>, m: int)
    requires
        balanced(a, m),
        balanced(b, m),
    ensures
        balanced(a + b, m),
{
    let s = a + b;
    lemma_open_blocks_concat(a, b);
    assert forall|k: int| 0 <= k <= s.len() implies #[trigger] open_blocks(s.take(k)) >= 0 by {
        if k <= a.len() {
            assert(s.take(k) =~= a.take(k));
        } else {
            assert(s.take(k) =~= a + b.take(k - a.len()));
            lemma_open_blocks_concat(a, b.take(k - a.len()));
        }
    }
    assert forall|k: int| 0 <= k < s.len() && s[k] == LogIRV::ElseStart implies #[trigger] open_blocks(
        s.take(k),
    ) >= m by {
        if k < a.len() {
            assert(s.take(k) =~= a.take(k));
            assert(s[k] == a[k]);
        } else {
            assert(s.take(k) =~= a + b.take(k - a.len()));
            assert(s[k] == b[k - a.len()]);
            lemma_open_blocks_concat(a, b.take(k - a.len()));
        }
    }
}

proof fn lemma_balanced_weaken(s: Seq<LogIRV>)
    requires
        balanced(s, 1),
    ensures
        balanced(s, 0),
{
}

/// A block `open ++ y ++ LoopEnd` around a balanced `y` is balanced, with its
/// `ElseStart`s inside the block.
proof fn lemma_balanced_wrap(open: LogIRV, y: Seq<LogIRV>)
    requires
        block_delta(open) == 1,
        balanced(y, 0),
    ensures
        balanced(seq![open] + y + seq![LogIRV::LoopEnd], 1),
{
    let s = seq![open] + y + seq![LogIRV::LoopEnd];
    lemma_open_blocks_concat(seq![open] + y, seq![LogIRV::LoopEnd]);
    lemma_open_blocks_concat(seq![open], y);
    lemma_open_blocks_single(open);
    lemma_open_blocks_single(LogIRV::LoopEnd);
    assert forall|k: int| 0 <= k <= s.len() implies #[trigger] open_blocks(s.take(k)) >= 0 by {
        if k == 0 {
            assert(s.take(k) =~= Seq::<LogIRV>::empty());
        } else if k <= y.len() + 1 {
            assert(s.take(k) =~= seq![open] + y.take(k - 1));
            lemma_open_blocks_concat(seq![open], y.take(k - 1));
        } else {
            assert(s.take(k) =~= s);
        }
    }
    assert forall|k: int| 0 <= k < s.len() && s[k] == LogIRV::ElseStart implies #[trigger] open_blocks(
        s.take(k),
    ) >= 1 by {
        if k == 0 {
            assert(s[0] == open);
        } else if k <= y.len() {
            assert(s.take(k) =~= seq![open] + y.take(k - 1));
            assert(s[k] == y[k - 1]);
            lemma_open_blocks_concat(seq![open], y.take(k - 1));
        } else {
            assert(s[k] == LogIRV::LoopEnd);
        }
    }
}

/// `t ++ ElseStart ++ e` for balanced branches is balanced, its `ElseStart`
/// at the level it starts at.
proof fn lemma_balanced_else(t: Seq<LogIRV>, e: Seq<LogIRV>)
    requires
        balanced(t, 1),
        balanced(e, 1),
    ensures
        balanced(t + seq![LogIRV::ElseStart] + e, 0),
{
    let mid = seq![LogIRV::ElseStart];
    assert(balanced(mid, 0)) by {
        lemma_open_blocks_single(LogIRV::ElseStart);
        assert forall|k: int| 0 <= k <= mid.len() implies #[trigger] open_blocks(mid.take(k))
            >= 0 by {
            if k == 0 {
                assert(mid.take(k) =~= Seq::<LogIRV>::empty());
            } else {
                assert(mid.take(k) =~= mid);
            }
        }
        assert forall|k: int| 0 <= k < mid.len() && mid[k] == LogIRV::ElseStart implies #[trigger] open_blocks(
            mid.take(k),
        ) >= 0 by {
            assert(mid.take(k) =~= Seq::<LogIRV>::empty());
        }
    }
    lemma_balanced_concat(t, mid, 0);
    lemma_balanced_concat(t + mid, e, 0);
}

proof fn lemma_expr_ir_flat(e: ExprV)
    ensures
        flat(expr_ir(e)),
    decreases e,
{
    match e {
        ExprV::Number(_) => {},
        ExprV::Variable(_) => {},
        ExprV::BinaryOp { left, op, right } => {
            lemma_expr_ir_flat(*left);
            lemma_expr_ir_flat(*right);
            lemma_flat_concat(expr_ir(*left), expr_ir(*right));
            lemma_flat_concat(expr_ir(*left) + expr_ir(*right), operator_ir(op));
        },
        ExprV::Call { name, args } => {
            if is_load_byte(name) {
                if args.len() >= 1 {
                    lemma_expr_ir_flat(args[0]);
                    lemma_flat_concat(expr_ir(args[0]), seq![LogIRV::LoadByte]);
                }
            } else if is_store_byte(name) {
                if args.len() >= 2 {
                    lemma_expr_ir_flat(args[0]);
                    lemma_expr_ir_flat(args[1]);
                    lemma_flat_concat(expr_ir(args[0]), expr_ir(args[1]));
                    lemma_flat_concat(
                        expr_ir(args[0]) + expr_ir(args[1]),
                        seq![LogIRV::StoreByte],
                    );
                }
            } else {
                lemma_exprs_ir_flat(args);
                lemma_flat_concat(exprs_ir(args), seq![LogIRV::Call(name)]);
            }
        },
    }
}

proof fn lemma_exprs_ir_flat(es: Seq<ExprV>)
    ensures
        flat(exprs_ir(es)),
    decreases es,
{
    if es.len() > 0 {
        lemma_exprs_ir_flat(es.drop_last());
        lemma_expr_ir_flat(es.last());
        lemma_flat_concat(exprs_ir(es.drop_last()), expr_ir(es.last()));
    }
}

proof fn lemma_stmt_ir_balanced(s: StatementV)
    ensures
        balanced(stmt_ir(s), 1),
    decreases s,
{
    match s {
        StatementV::Function { body, .. } => lemma_stmts_ir_balanced(body),
        StatementV::Let { name, value } => {
            lemma_expr_ir_flat(value);
            lemma_flat_concat(expr_ir(value), seq![LogIRV::Store(name)]);
            lemma_flat_balanced(stmt_ir(s), 1);
        },
        StatementV::Assign { name, value } => {
            lemma_expr_ir_flat(value);
            lemma_flat_concat(expr_ir(value), seq![LogIRV::Store(name)]);
            lemma_flat_balanced(stmt_ir(s), 1);
        },
        StatementV::Expression(e) => {
            lemma_expr_ir_flat(e);
            lemma_flat_balanced(stmt_ir(s), 1);
        },
        StatementV::If { condition, then_branch, else_branch } => {
            lemma_expr_ir_flat(condition);
            lemma_flat_balanced(expr_ir(condition), 1);
            lemma_stmts_ir_balanced(then_branch);
            let t = stmts_ir(then_branch);
            let inner = match else_branch {
                Some(eb) => {
                    lemma_stmts_ir_balanced(eb);
                    lemma_balanced_else(t, stmts_ir(eb));
                    assert(t + (seq![LogIRV::ElseStart] + stmts_ir(eb)) =~= t + seq![
                        LogIRV::ElseStart,
                    ] + stmts_ir(eb));
                    t + (seq![LogIRV::ElseStart] + stmts_ir(eb))
                },
                None => {
                    lemma_balanced_weaken(t);
                    assert(t + Seq::<LogIRV>::empty() =~= t);
                    t + Seq::<LogIRV>::empty()
                },
            };
            lemma_balanced_wrap(LogIRV::IfStart, inner);
            lemma_balanced_concat(
                expr_ir(condition),
                seq![LogIRV::IfStart] + inner + seq![LogIRV::LoopEnd],
                1,
            );
            assert(stmt_ir(s) =~= expr_ir(condition) + (seq![LogIRV::IfStart] + inner + seq![
                LogIRV::LoopEnd,
            ]));
        },
        StatementV::While { condition, body } => {
            lemma_expr_ir_flat(condition);
            lemma_flat_balanced(expr_ir(condition), 0);
            lemma_stmts_ir_balanced(body);
            lemma_balanced_weaken(stmts_ir(body));
            let inner = expr_ir(condition) + stmts_ir(body);
            lemma_balanced_concat(expr_ir(condition), stmts_ir(body), 0);
            lemma_balanced_wrap(LogIRV::WhileStart, inner);
            assert(stmt_ir(s) =~= seq![LogIRV::WhileStart] + inner + seq![LogIRV::LoopEnd]);
        },
    }
}

proof fn lemma_stmts_ir_balanced(ss: Seq<StatementV>)
    ensures
        balanced(stmts_ir(ss), 1),
    decreases ss,
{
    if ss.len() == 0 {
        lemma_flat_balanced(stmts_ir(ss), 1);
    } else {
        lemma_stmts_ir_balanced(ss.drop_last());
        lemma_stmt_ir_balanced(ss.last());
        lemma_balanced_concat(stmts_ir(ss.drop_last()), stmt_ir(ss.last()), 1);
    }
}

/// In the log IR of any program every `IfStart` and `WhileStart` is closed by
/// one `LoopEnd`, no `LoopEnd` closes a block that was not opened, and every
/// `ElseStart` stands inside an open block.
pub proof fn lemma_log_ir_balanced(ss: Seq<StatementV>)
    ensures
        balanced(stmts_ir(ss), 1),
{
    lemma_stmts_ir_balanced(ss);
}


// ---------------------------------------------------------------- what lowering keeps

/// The number of `Store` instructions in `ir`.
pub open spec fn count_stores(ir: Seq<LogIRV>) -> nat
    decreases ir.len(),
{
    if ir.len() == 0 {
        0
    } else {
        count_stores(ir.drop_last()) + if ir.last() is Store {
            1nat
        } else {
            0nat
        }
    }
}

/// The number of `let` and assignment statements in `s`, at any depth.
pub open spec fn stmt_assignments(s: StatementV) -> nat
    decreases s,
{
    match s {
        StatementV::Let { .. } => 1,
        StatementV::Assign { .. } => 1,
        StatementV::Expression(_) => 0,
        StatementV::Function { body, .. } => stmts_assignments(body),
        StatementV::If { then_branch, else_branch, .. } => stmts_assignments(then_branch)
            + match else_branch {
            Some(eb) => stmts_assignments(eb),
            None => 0,
        },
        StatementV::While { body, .. } => stmts_assignments(body),
    }
}

/// The number of `let` and assignment statements in `ss`, at any depth.
pub open spec fn stmts_assignments(ss: Seq<StatementV>) -> nat
    decreases ss,
{
    if ss.len() == 0 {
        0
    } else {
        stmts_assignments(ss.drop_last()) + stmt_assignments(ss.last())
    }
}

proof fn lemma_count_stores_concat(a: Seq<LogIRV>, b: Seq<LogIRV>)
    ensures
        count_stores(a + b) == count_stores(a) + count_stores(b),
    decreases b.len(),
{
    if b.len() == 0 {
        assert(a + b =~= a);
    } else {
        lemma_count_stores_concat(a, b.drop_last());
        assert((a + b).drop_last() =~= a + b.drop_last());
        assert((a + b).last() == b.last());
    }
}

proof fn lemma_count_stores_flat(s: Seq<LogIRV>)
    requires
        forall|i: int| 0 <= i < s.len() ==> !(#[trigger] s[i] is Store),
    ensures
        count_stores(s) == 0,
    decreases s.len(),
{
    if s.len() > 0 {
        lemma_count_stores_flat(s.drop_last());
    }
}

proof fn lemma_expr_ir_no_store(e: ExprV)
    ensures
        forall|i: int| 0 <= i < expr_ir(e).len() ==> !(#[trigger] expr_ir(e)[i] is Store),
    decreases e,
{
    match e {
        ExprV::Number(_) => {},
        ExprV::Variable(_) => {},
        ExprV::BinaryOp { left, op, right } => {
            lemma_expr_ir_no_store(*left);
            lemma_expr_ir_no_store(*right);
            let a = expr_ir(*left);
            let b = expr_ir(*right);
            let o = operator_ir(op);
            assert forall|i: int| 0 <= i < expr_ir(e).len() implies !(
            #[trigger] expr_ir(e)[i] is Store) by {
                if i < a.len() {
                    assert(expr_ir(e)[i] == a[i]);
                } else if i < a.len() + b.len() {
                    assert(expr_ir(e)[i] == b[i - a.len()]);
                } else {
                    assert(expr_ir(e)[i] == o[i - a.len() - b.len()]);
                }
            }
        },
        ExprV::Call { name, args } => {
            if is_load_byte(name) {
                if args.len() >= 1 {
                    lemma_expr_ir_no_store(args[0]);
                    let a = expr_ir(args[0]);
                    assert forall|i: int| 0 <= i < expr_ir(e).len() implies !(
                    #[trigger] expr_ir(e)[i] is Store) by {
                        if i < a.len() {
                            assert(expr_ir(e)[i] == a[i]);
                        }
                    }
                }
            } else if is_store_byte(name) {
                if args.len() >= 2 {
                    lemma_expr_ir_no_store(args[0]);
                    lemma_expr_ir_no_store(args[1]);
                    let a = expr_ir(args[0]);
                    let b = expr_ir(args[1]);
                    assert forall|i: int| 0 <= i < expr_ir(e).len() implies !(
                    #[trigger] expr_ir(e)[i] is Store) by {
                        if i < a.len() {
                            assert(expr_ir(e)[i] == a[i]);
                        } else if i < a.len() + b.len() {
                            assert(expr_ir(e)[i] == b[i - a.len()]);
                        }
                    }
                }
            } else {
                lemma_exprs_ir_no_store(args);
                let a = exprs_ir(args);
                assert forall|i: int| 0 <= i < expr_ir(e).len() implies !(
                #[trigger] expr_ir(e)[i] is Store) by {
                    if i < a.len() {
                        assert(expr_ir(e)[i] == a[i]);
                    }
                }
            }
        },
    }
}

proof fn lemma_exprs_ir_no_store(es: Seq<ExprV>)
    ensures
        forall|i: int| 0 <= i < exprs_ir(es).len() ==> !(#[trigger] exprs_ir(es)[i] is Store),
    decreases es,
{
    if es.len() > 0 {
        lemma_exprs_ir_no_store(es.drop_last());
        lemma_expr_ir_no_store(es.last());
        let a = exprs_ir(es.drop_last());
        let b = expr_ir(es.last());
        assert forall|i: int| 0 <= i < exprs_ir(es).len() implies !(
        #[trigger] exprs_ir(es)[i] is Store) by {
            if i < a.len() {
                assert(exprs_ir(es)[i] == a[i]);
            } else {
                assert(exprs_ir(es)[i] == b[i - a.len()]);
            }
        }
    }
}

proof fn lemma_stmt_stores(s: StatementV)
    ensures
        count_stores(stmt_ir(s)) == stmt_assignments(s),
    decreases s,
{
    match s {
        StatementV::Function { body, .. } => lemma_stmts_stores(body),
        StatementV::Let { name, value } => {
            lemma_expr_ir_no_store(value);
            lemma_count_stores_flat(expr_ir(value));
            lemma_count_stores_concat(expr_ir(value), seq![LogIRV::Store(name)]);
            assert(count_stores(seq![LogIRV::Store(name)]) == 1) by {
                assert(seq![LogIRV::Store(name)].drop_last() =~= Seq::<LogIRV>::empty());
                assert(count_stores(Seq::<LogIRV>::empty()) == 0);
            }
        },
        StatementV::Assign { name, value } => {
            lemma_expr_ir_no_store(value);
            lemma_count_stores_flat(expr_ir(value));
            lemma_count_stores_concat(expr_ir(value), seq![LogIRV::Store(name)]);
            assert(count_stores(seq![LogIRV::Store(name)]) == 1) by {
                assert(seq![LogIRV::Store(name)].drop_last() =~= Seq::<LogIRV>::empty());
                assert(count_stores(Seq::<LogIRV>::empty()) == 0);
            }
        },
        StatementV::Expression(e) => {
            lemma_expr_ir_no_store(e);
            lemma_count_stores_flat(expr_ir(e));
        },
        StatementV::If { condition, then_branch, else_branch } => {
            lemma_expr_ir_no_store(condition);
            lemma_count_stores_flat(expr_ir(condition));
            lemma_count_stores_flat(seq![LogIRV::IfStart]);
            lemma_count_stores_flat(seq![LogIRV::LoopEnd]);
            lemma_count_stores_flat(seq![LogIRV::ElseStart]);
            lemma_stmts_stores(then_branch);
            let head = expr_ir(condition) + seq![LogIRV::IfStart];
            lemma_count_stores_concat(expr_ir(condition), seq![LogIRV::IfStart]);
            lemma_count_stores_concat(head, stmts_ir(then_branch));
            let tail = match else_branch {
                Some(eb) => seq![LogIRV::ElseStart] + stmts_ir(eb),
                None => Seq::<LogIRV>::empty(),
            };
            match else_branch {
                Some(eb) => {
                    lemma_stmts_stores(eb);
                    lemma_count_stores_concat(seq![LogIRV::ElseStart], stmts_ir(eb));
                },
                None => {
                    lemma_count_stores_flat(tail);
                },
            }
            lemma_count_stores_concat(head + stmts_ir(then_branch), tail);
            lemma_count_stores_concat(head + stmts_ir(then_branch) + tail, seq![LogIRV::LoopEnd]);
        },
        StatementV::While { condition, body } => {
            lemma_expr_ir_no_store(condition);
            lemma_count_stores_flat(expr_ir(condition));
            lemma_count_stores_flat(seq![LogIRV::WhileStart]);
            lemma_count_stores_flat(seq![LogIRV::LoopEnd]);
            lemma_stmts_stores(body);
            lemma_count_stores_concat(seq![LogIRV::WhileStart], expr_ir(condition));
            lemma_count_stores_concat(seq![LogIRV::WhileStart] + expr_ir(condition), stmts_ir(body));
            lemma_count_stores_concat(
                seq![LogIRV::WhileStart] + expr_ir(condition) + stmts_ir(body),
                seq![LogIRV::LoopEnd],
            );
        },
    }
}

proof fn lemma_stmts_stores(ss: Seq<StatementV>)
    ensures
        count_stores(stmts_ir(ss)) == stmts_assignments(ss),
    decreases ss,
{
    if ss.len() > 0 {
        lemma_stmts_stores(ss.drop_last());
        lemma_stmt_stores(ss.last());
        lemma_count_stores_concat(stmts_ir(ss.drop_last()), stmt_ir(ss.last()));
    }
}

/// Lowering keeps every assignment: the log IR of a program holds one `Store`
/// for each `let` and each assignment, at any depth (inside `if` and `else`
/// branches, loop bodies and function bodies).
pub proof fn lemma_log_ir_stores(ss: Seq<StatementV>)
    ensures
        count_stores(stmts_ir(ss)) == stmts_assignments(ss),
{
    lemma_stmts_stores(ss);
}

/// An `if` without `else` is lowered as the same `if` with an empty `else`,
/// less its `ElseStart`: the then-branch is lowered whether or not an `else`
/// follows, and the block is closed by one `LoopEnd` either way.
pub proof fn lemma_log_ir_if_without_else(condition: ExprV, then_branch: Seq<StatementV>)
    ensures
        stmt_ir(StatementV::If { condition, then_branch, else_branch: None }).len() > 0,
        stmt_ir(StatementV::If { condition, then_branch, else_branch: None }).last()
            == LogIRV::LoopEnd,
        stmt_ir(StatementV::If { condition, then_branch, else_branch: Some(seq![]) }) == stmt_ir(
            StatementV::If { condition, then_branch, else_branch: None },
        ).drop_last() + seq![LogIRV::ElseStart, LogIRV::LoopEnd],
{
    let head = expr_ir(condition) + seq![LogIRV::IfStart] + stmts_ir(then_branch);
    assert(stmts_ir(Seq::<StatementV>::empty()) =~= Seq::<LogIRV>::empty());
    assert(stmt_ir(StatementV::If { condition, then_branch, else_branch: None }) =~= head
        + seq![LogIRV::LoopEnd]);
    assert((head + seq![LogIRV::LoopEnd]).drop_last() =~= head);
    assert(stmt_ir(StatementV::If { condition, then_branch, else_branch: Some(seq![]) })
        =~= head + seq![LogIRV::ElseStart, LogIRV::LoopEnd]);
}

/// Arguments are lowered in order: the instructions of `a ++ b` are those of
/// `a`, then those of `b`.
pub proof fn lemma_exprs_ir_concat(a: Seq<ExprV>, b: Seq<ExprV>)
    ensures
        exprs_ir(a + b) == exprs_ir(a) + exprs_ir(b),
    decreases b.len(),
{
    if b.len() == 0 {
        assert(a + b =~= a);
        assert(exprs_ir(a) + exprs_ir(b) =~= exprs_ir(a));
    } else {
        lemma_exprs_ir_concat(a, b.drop_last());
        assert((a + b).drop_last() =~= a + b.drop_last());
        assert((a + b).last() == b.last());
        assert(exprs_ir(a + b) =~= exprs_ir(a) + exprs_ir(b));
    }
}
} // verus!
