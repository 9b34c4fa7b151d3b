//! Statements are self-delimiting: parsing two token streams one after the
//! other gives the statements of the first followed by those of the second.
//!
//! The proof rests on three facts about the grammar functions of the parser:
//! they never move back and never pass the end of the tokens; what they return
//! depends only on the tokens they look at, wherever those tokens stand; and a
//! statement looks past its own last token only to see whether an `else`
//! follows.
use vstd::prelude::*;
use crate::ast::{ExprV, StatementV, TokenV};
use crate::compiler::parse_program;
use crate::parser::{
    expect_at, parse_arg_list_at, parse_args_at, parse_block_at, parse_braced_at,
    parse_condition_at, parse_expr_at, parse_expr_rest_at, parse_function_at, parse_if_at,
    parse_let_at, parse_primary_at, parse_program_at, parse_statement_at, parse_while_at, peek_at,
    ParseErrorV,
};

verus! {

// ---------------------------------------------------------------- positions

proof fn lemma_primary_pos(ts: Seq<TokenV>, p: int)
    requires
        0 <= p <= ts.len(),
    ensures
        p <= parse_primary_at(ts, p).1 <= ts.len(),
        parse_primary_at(ts, p).0 is Ok ==> p < parse_primary_at(ts, p).1,
    decreases ts.len() - p, 0int,
{
    match peek_at(ts, p) {
        Some(TokenV::Identifier(_)) => {
            if peek_at(ts, p + 1) == Some(TokenV::OpenParen) {
                lemma_args_pos(ts, p + 2);
            }
        },
        Some(TokenV::OpenParen) => {
            lemma_expr_pos(ts, p + 1);
        },
        _ => {},
    }
}

proof fn lemma_expr_pos(ts: Seq<TokenV>, p: int)
    requires
        0 <= p <= ts.len(),
    ensures
        p <= parse_expr_at(ts, p).1 <= ts.len(),
        parse_expr_at(ts, p).0 is Ok ==> p < parse_expr_at(ts, p).1,
    decreases ts.len() - p, 1int,
{
    lemma_primary_pos(ts, p);
    let (r, p2) = parse_primary_at(ts, p);
    if let Ok(left) = r {
        lemma_rest_pos(ts, p2, left);
    }
}

proof fn lemma_rest_pos(ts: Seq<TokenV>, p: int, left: ExprV)
    requires
        0 <= p <= ts.len(),
    ensures
        p <= parse_expr_rest_at(ts, p, left).1 <= ts.len(),
    decreases ts.len() - p, 0int,
{
    if let Some(t) = peek_at(ts, p) {
        if crate::parser::is_binary_operator(t) {
            lemma_primary_pos(ts, p + 1);
            let (r, p3) = parse_primary_at(ts, p + 1);
            if let Ok(right) = r {
                let e = ExprV::BinaryOp {
                    left: Box::new(left),
                    op: crate::parser::operator_text(t),
                    right: Box::new(right),
                };
                lemma_rest_pos(ts, p3, e);
            }
        }
    }
}

proof fn lemma_args_pos(ts: Seq<TokenV>, p: int)
    requires
        0 <= p <= ts.len(),
    ensures
        p <= parse_args_at(ts, p).1 <= ts.len(),
        parse_args_at(ts, p).0 is Ok ==> p < parse_args_at(ts, p).1,
    decreases ts.len() - p, 3int,
{
    if peek_at(ts, p) != Some(TokenV::CloseParen) {
        lemma_arg_list_pos(ts, p, seq![]);
    }
}

proof fn lemma_arg_list_pos(ts: Seq<TokenV>, p: int, acc: Seq<ExprV>)
    requires
        0 <= p <= ts.len(),
    ensures
        p <= parse_arg_list_at(ts, p, acc).1 <= ts.len(),
        parse_arg_list_at(ts, p, acc).0 is Ok ==> p < parse_arg_list_at(ts, p, acc).1,
    decreases ts.len() - p, 2int,
{
    lemma_expr_pos(ts, p);
    let (r, p2) = parse_expr_at(ts, p);
    if let Ok(e) = r {
        if peek_at(ts, p2) == Some(TokenV::Comma) {
            lemma_arg_list_pos(ts, p2 + 1, acc.push(e));
        }
    }
}

proof fn lemma_block_pos(ts: Seq<TokenV>, p: int, acc: Seq<StatementV>)
    requires
        0 <= p <= ts.len(),
    ensures
        p <= parse_block_at(ts, p, acc).1 <= ts.len(),
    decreases ts.len() - p, 6int,
{
    match peek_at(ts, p) {
        None => {},
        Some(TokenV::CloseBrace) => {},
        Some(_) => {
            lemma_statement_pos(ts, p);
            let (r, p2) = parse_statement_at(ts, p);
            if let Ok(s) = r {
                lemma_block_pos(ts, p2, acc.push(s));
            }
        },
    }
}

proof fn lemma_braced_pos(ts: Seq<TokenV>, p: int)
    requires
        0 <= p <= ts.len(),
    ensures
        p <= parse_braced_at(ts, p).1 <= ts.len(),
        parse_braced_at(ts, p).0 is Ok ==> p < parse_braced_at(ts, p).1,
    decreases ts.len() - p, 6int,
{
    let (r0, p0) = expect_at(ts, p, TokenV::OpenBrace);
    if r0 is Ok {
        lemma_block_pos(ts, p0, seq![]);
    }
}

proof fn lemma_condition_pos(ts: Seq<TokenV>, p: int)
    requires
        0 <= p <= ts.len(),
    ensures
        p <= parse_condition_at(ts, p).1 <= ts.len(),
        parse_condition_at(ts, p).0 is Ok ==> p < parse_condition_at(ts, p).1,
    decreases ts.len() - p, 6int,
{
    let (r0, p0) = expect_at(ts, p, TokenV::OpenParen);
    if r0 is Ok {
        lemma_expr_pos(ts, p0);
    }
}

proof fn lemma_function_pos(ts: Seq<TokenV>, p: int)
    requires
        0 <= p <= ts.len(),
    ensures
        p <= parse_function_at(ts, p).1 <= ts.len(),
        parse_function_at(ts, p).0 is Ok ==> p < parse_function_at(ts, p).1,
    decreases ts.len() - p, 4int,
{
    let (r0, p0) = expect_at(ts, p, TokenV::Fn);
    if r0 is Ok {
        if let Some(TokenV::Identifier(_)) = peek_at(ts, p0) {
            let (r1, p1) = expect_at(ts, p0 + 1, TokenV::OpenParen);
            if r1 is Ok {
                let (r2, p2) = expect_at(ts, p1, TokenV::CloseParen);
                if r2 is Ok {
                    lemma_braced_pos(ts, p2);
                }
            }
        }
    }
}

proof fn lemma_let_pos(ts: Seq<TokenV>, p: int)
    requires
        0 <= p <= ts.len(),
    ensures
        p <= parse_let_at(ts, p).1 <= ts.len(),
        parse_let_at(ts, p).0 is Ok ==> p < parse_let_at(ts, p).1,
    decreases ts.len() - p, 4int,
{
    let (r0, p0) = expect_at(ts, p, TokenV::Let);
    if r0 is Ok {
        if let Some(TokenV::Identifier(_)) = peek_at(ts, p0) {
            let (r1, p1) = expect_at(ts, p0 + 1, TokenV::Assign);
            if r1 is Ok {
                lemma_expr_pos(ts, p1);
            }
        }
    }
}

proof fn lemma_if_pos(ts: Seq<TokenV>, p: int)
    requires
        0 <= p <= ts.len(),
    ensures
        p <= parse_if_at(ts, p).1 <= ts.len(),
        parse_if_at(ts, p).0 is Ok ==> p < parse_if_at(ts, p).1,
    decreases ts.len() - p, 4int,
{
    let (r0, p0) = expect_at(ts, p, TokenV::If);
    if r0 is Ok {
        lemma_condition_pos(ts, p0);
        let (r1, p1) = parse_condition_at(ts, p0);
        if r1 is Ok {
            lemma_braced_pos(ts, p1);
            let (r2, p2) = parse_braced_at(ts, p1);
            if r2 is Ok && peek_at(ts, p2) == Some(TokenV::Else) {
                lemma_braced_pos(ts, p2 + 1);
            }
        }
    }
}

proof fn lemma_while_pos(ts: Seq<TokenV>, p: int)
    requires
        0 <= p <= ts.len(),
    ensures
        p <= parse_while_at(ts, p).1 <= ts.len(),
        parse_while_at(ts, p).0 is Ok ==> p < parse_while_at(ts, p).1,
    decreases ts.len() - p, 4int,
{
    let (r0, p0) = expect_at(ts, p, TokenV::While);
    if r0 is Ok {
        lemma_condition_pos(ts, p0);
        let (r1, p1) = parse_condition_at(ts, p0);
        if r1 is Ok {
            lemma_braced_pos(ts, p1);
        }
    }
}

proof fn lemma_statement_pos(ts: Seq<TokenV>, p: int)
    requires
        0 <= p <= ts.len(),
    ensures
        p <= parse_statement_at(ts, p).1 <= ts.len(),
        parse_statement_at(ts, p).0 is Ok ==> p < parse_statement_at(ts, p).1,
    decreases ts.len() - p, 5int,
{
    match peek_at(ts, p) {
        Some(TokenV::Fn) => lemma_function_pos(ts, p),
        Some(TokenV::Let) => lemma_let_pos(ts, p),
        Some(TokenV::If) => lemma_if_pos(ts, p),
        Some(TokenV::While) => lemma_while_pos(ts, p),
        Some(TokenV::Identifier(_)) => {
            if p + 1 < ts.len() {
                lemma_expr_pos(ts, p + 2);
                lemma_args_pos(ts, p + 2);
            }
        },
        _ => {},
    }
}

// ---------------------------------------------------------------- agreement

/// `ts` from `lo` up to `hi` reads as `us` from `lo + d` up to `hi + d`
/// (a position past the end reads as nothing).
pub open spec fn agree(ts: Seq<TokenV>, us: Seq<TokenV>, d: int, lo: int, hi: int) -> bool {
    forall|k: int| lo <= k < hi ==> #[trigger] peek_at(ts, k) == peek_at(us, k + d)
}

/// At `q` in `ts` and at `q + d` in `us` an `else` follows in both or in neither.
pub open spec fn else_alike(ts: Seq<TokenV>, us: Seq<TokenV>, d: int, q: int) -> bool {
    (peek_at(ts, q) == Some(TokenV::Else)) == (peek_at(us, q + d) == Some(TokenV::Else))
}

proof fn lemma_primary_agree(ts: Seq<TokenV>, us: Seq<TokenV>, d: int, p: int)
    requires
        0 <= p <= ts.len(),
        0 <= p + d <= us.len(),
        agree(ts, us, d, p, parse_primary_at(ts, p).1 + 1),
    ensures
        parse_primary_at(us, p + d) == (parse_primary_at(ts, p).0, parse_primary_at(ts, p).1 + d),
    decreases ts.len() - p, 0int,
{
    lemma_primary_pos(ts, p);
    assert(peek_at(ts, p) == peek_at(us, p + d));
    match peek_at(ts, p) {
        Some(TokenV::Identifier(_)) => {
            if peek_at(ts, p + 1) == Some(TokenV::OpenParen) {
                lemma_args_pos(ts, p + 2);
            }
            assert(peek_at(ts, p + 1) == peek_at(us, p + 1 + d));
            if peek_at(ts, p + 1) == Some(TokenV::OpenParen) {
                lemma_args_agree(ts, us, d, p + 2);
            }
        },
        Some(TokenV::OpenParen) => {
            lemma_expr_pos(ts, p + 1);
            lemma_expr_agree(ts, us, d, p + 1);
            let p2 = parse_expr_at(ts, p + 1).1;
            assert(peek_at(ts, p2) == peek_at(us, p2 + d));
        },
        _ => {},
    }
}

proof fn lemma_expr_agree(ts: Seq<TokenV>, us: Seq<TokenV>, d: int, p: int)
    requires
        0 <= p <= ts.len(),
        0 <= p + d <= us.len(),
        agree(ts, us, d, p, parse_expr_at(ts, p).1 + 1),
    ensures
        parse_expr_at(us, p + d) == (parse_expr_at(ts, p).0, parse_expr_at(ts, p).1 + d),
    decreases ts.len() - p, 1int,
{
    lemma_primary_pos(ts, p);
    let (r, p2) = parse_primary_at(ts, p);
    if let Ok(left) = r {
        lemma_rest_pos(ts, p2, left);
    }
    lemma_primary_agree(ts, us, d, p);
    lemma_primary_pos(us, p + d);
    if let Ok(left) = r {
        lemma_rest_agree(ts, us, d, p2, left);
    }
}

proof fn lemma_rest_agree(ts: Seq<TokenV>, us: Seq<TokenV>, d: int, p: int, left: ExprV)
    requires
        0 <= p <= ts.len(),
        0 <= p + d <= us.len(),
        agree(ts, us, d, p, parse_expr_rest_at(ts, p, left).1 + 1),
    ensures
        parse_expr_rest_at(us, p + d, left) == (
            parse_expr_rest_at(ts, p, left).0,
            parse_expr_rest_at(ts, p, left).1 + d,
        ),
    decreases ts.len() - p, 0int,
{
    lemma_rest_pos(ts, p, left);
    assert(peek_at(ts, p) == peek_at(us, p + d));
    if let Some(t) = peek_at(ts, p) {
        if crate::parser::is_binary_operator(t) {
            lemma_primary_pos(ts, p + 1);
            let (r, p3) = parse_primary_at(ts, p + 1);
            if let Ok(right) = r {
                let e = ExprV::BinaryOp {
                    left: Box::new(left),
                    op: crate::parser::operator_text(t),
                    right: Box::new(right),
                };
                lemma_rest_pos(ts, p3, e);
            }
            lemma_primary_agree(ts, us, d, p + 1);
            lemma_primary_pos(us, p + 1 + d);
            if let Ok(right) = r {
                let e = ExprV::BinaryOp {
                    left: Box::new(left),
                    op: crate::parser::operator_text(t),
                    right: Box::new(right),
                };
                lemma_rest_agree(ts, us, d, p3, e);
            }
        }
    }
}

proof fn lemma_args_agree(ts: Seq<TokenV>, us: Seq<TokenV>, d: int, p: int)
    requires
        0 <= p <= ts.len(),
        0 <= p + d <= us.len(),
        agree(ts, us, d, p, parse_args_at(ts, p).1),
        parse_args_at(ts, p).0 is Err ==> agree(ts, us, d, p, parse_args_at(ts, p).1 + 1),
    ensures
        parse_args_at(us, p + d) == (parse_args_at(ts, p).0, parse_args_at(ts, p).1 + d),
    decreases ts.len() - p, 3int,
{
    lemma_args_pos(ts, p);
    assert(peek_at(ts, p) == peek_at(us, p + d));
    if peek_at(ts, p) != Some(TokenV::CloseParen) {
        lemma_arg_list_agree(ts, us, d, p, seq![]);
    }
}

proof fn lemma_arg_list_agree(ts: Seq<TokenV>, us: Seq<TokenV>, d: int, p: int, acc: Seq<ExprV>)
    requires
        0 <= p <= ts.len(),
        0 <= p + d <= us.len(),
        agree(ts, us, d, p, parse_arg_list_at(ts, p, acc).1),
        parse_arg_list_at(ts, p, acc).0 is Err ==> agree(
            ts,
            us,
            d,
            p,
            parse_arg_list_at(ts, p, acc).1 + 1,
        ),
    ensures
        parse_arg_list_at(us, p + d, acc) == (
            parse_arg_list_at(ts, p, acc).0,
            parse_arg_list_at(ts, p, acc).1 + d,
        ),
    decreases ts.len() - p, 2int,
{
    lemma_expr_pos(ts, p);
    let (r, p2) = parse_expr_at(ts, p);
    if let Ok(e) = r {
        if peek_at(ts, p2) == Some(TokenV::Comma) {
            lemma_arg_list_pos(ts, p2 + 1, acc.push(e));
        }
    }
    lemma_expr_agree(ts, us, d, p);
    if let Ok(e) = r {
        assert(peek_at(ts, p2) == peek_at(us, p2 + d));
        if peek_at(ts, p2) == Some(TokenV::Comma) {
            lemma_arg_list_agree(ts, us, d, p2 + 1, acc.push(e));
        }
    }
}

proof fn lemma_block_agree(
    ts: Seq<TokenV>,
    us: Seq<TokenV>,
    d: int,
    p: int,
    acc: Seq<StatementV>,
)
    requires
        0 <= p <= ts.len(),
        0 <= p + d <= us.len(),
        agree(ts, us, d, p, parse_block_at(ts, p, acc).1 + 1),
    ensures
        parse_block_at(us, p + d, acc) == (
            parse_block_at(ts, p, acc).0,
            parse_block_at(ts, p, acc).1 + d,
        ),
    decreases ts.len() - p, 6int,
{
    lemma_block_pos(ts, p, acc);
    assert(peek_at(ts, p) == peek_at(us, p + d));
    match peek_at(ts, p) {
        None => {},
        Some(TokenV::CloseBrace) => {},
        Some(_) => {
            lemma_statement_pos(ts, p);
            let (r, p2) = parse_statement_at(ts, p);
            if let Ok(s) = r {
                lemma_block_pos(ts, p2, acc.push(s));
            }
            assert(peek_at(ts, p2) == peek_at(us, p2 + d));
            lemma_statement_agree(ts, us, d, p);
            lemma_statement_pos(us, p + d);
            if let Ok(s) = r {
                lemma_block_agree(ts, us, d, p2, acc.push(s));
            }
        },
    }
}

proof fn lemma_braced_agree(ts: Seq<TokenV>, us: Seq<TokenV>, d: int, p: int)
    requires
        0 <= p <= ts.len(),
        0 <= p + d <= us.len(),
        agree(ts, us, d, p, parse_braced_at(ts, p).1),
        parse_braced_at(ts, p).0 is Err ==> agree(ts, us, d, p, parse_braced_at(ts, p).1 + 1),
    ensures
        parse_braced_at(us, p + d) == (parse_braced_at(ts, p).0, parse_braced_at(ts, p).1 + d),
    decreases ts.len() - p, 6int,
{
    lemma_braced_pos(ts, p);
    assert(peek_at(ts, p) == peek_at(us, p + d));
    let (r0, p0) = expect_at(ts, p, TokenV::OpenBrace);
    if r0 is Ok {
        lemma_block_pos(ts, p0, seq![]);
        let p1 = parse_block_at(ts, p0, seq![]).1;
        lemma_block_agree(ts, us, d, p0, seq![]);
        assert(peek_at(ts, p1) == peek_at(us, p1 + d));
    }
}

proof fn lemma_condition_agree(ts: Seq<TokenV>, us: Seq<TokenV>, d: int, p: int)
    requires
        0 <= p <= ts.len(),
        0 <= p + d <= us.len(),
        agree(ts, us, d, p, parse_condition_at(ts, p).1),
        parse_condition_at(ts, p).0 is Err ==> agree(
            ts,
            us,
            d,
            p,
            parse_condition_at(ts, p).1 + 1,
        ),
    ensures
        parse_condition_at(us, p + d) == (
            parse_condition_at(ts, p).0,
            parse_condition_at(ts, p).1 + d,
        ),
    decreases ts.len() - p, 6int,
{
    lemma_condition_pos(ts, p);
    assert(peek_at(ts, p) == peek_at(us, p + d));
    let (r0, p0) = expect_at(ts, p, TokenV::OpenParen);
    if r0 is Ok {
        lemma_expr_pos(ts, p0);
        let p1 = parse_expr_at(ts, p0).1;
        lemma_expr_agree(ts, us, d, p0);
        assert(peek_at(ts, p1) == peek_at(us, p1 + d));
    }
}

proof fn lemma_function_agree(ts: Seq<TokenV>, us: Seq<TokenV>, d: int, p: int)
    requires
        0 <= p <= ts.len(),
        0 <= p + d <= us.len(),
        agree(ts, us, d, p, parse_function_at(ts, p).1),
        parse_function_at(ts, p).0 is Err ==> agree(
            ts,
            us,
            d,
            p,
            parse_function_at(ts, p).1 + 1,
        ),
    ensures
        parse_function_at(us, p + d) == (
            parse_function_at(ts, p).0,
            parse_function_at(ts, p).1 + d,
        ),
    decreases ts.len() - p, 4int,
{
    lemma_function_pos(ts, p);
    let (r0, p0) = expect_at(ts, p, TokenV::Fn);
    if r0 is Ok {
        if let Some(TokenV::Identifier(_)) = peek_at(ts, p0) {
            let (r1, p1) = expect_at(ts, p0 + 1, TokenV::OpenParen);
            if r1 is Ok {
                let (r2, p2) = expect_at(ts, p1, TokenV::CloseParen);
                if r2 is Ok {
                    lemma_braced_pos(ts, p2);
                }
            }
        }
    }
    assert(peek_at(ts, p) == peek_at(us, p + d));
    if r0 is Ok {
        assert(peek_at(ts, p0) == peek_at(us, p0 + d));
        if let Some(TokenV::Identifier(_)) = peek_at(ts, p0) {
            assert(peek_at(ts, p0 + 1) == peek_at(us, p0 + 1 + d));
            let (r1, p1) = expect_at(ts, p0 + 1, TokenV::OpenParen);
            if r1 is Ok {
                assert(peek_at(ts, p1) == peek_at(us, p1 + d));
                let (r2, p2) = expect_at(ts, p1, TokenV::CloseParen);
                if r2 is Ok {
                    lemma_braced_pos(ts, p2);
                    lemma_braced_agree(ts, us, d, p2);
                }
            }
        }
    }
}

proof fn lemma_let_agree(ts: Seq<TokenV>, us: Seq<TokenV>, d: int, p: int)
    requires
        0 <= p <= ts.len(),
        0 <= p + d <= us.len(),
        agree(ts, us, d, p, parse_let_at(ts, p).1),
        parse_let_at(ts, p).0 is Err ==> agree(ts, us, d, p, parse_let_at(ts, p).1 + 1),
    ensures
        parse_let_at(us, p + d) == (parse_let_at(ts, p).0, parse_let_at(ts, p).1 + d),
    decreases ts.len() - p, 4int,
{
    lemma_let_pos(ts, p);
    let (r0, p0) = expect_at(ts, p, TokenV::Let);
    if r0 is Ok {
        if let Some(TokenV::Identifier(_)) = peek_at(ts, p0) {
            let (r1, p1) = expect_at(ts, p0 + 1, TokenV::Assign);
            if r1 is Ok {
                lemma_expr_pos(ts, p1);
            }
        }
    }
    assert(peek_at(ts, p) == peek_at(us, p + d));
    if r0 is Ok {
        assert(peek_at(ts, p0) == peek_at(us, p0 + d));
        if let Some(TokenV::Identifier(_)) = peek_at(ts, p0) {
            assert(peek_at(ts, p0 + 1) == peek_at(us, p0 + 1 + d));
            let (r1, p1) = expect_at(ts, p0 + 1, TokenV::Assign);
            if r1 is Ok {
                lemma_expr_pos(ts, p1);
                let p2 = parse_expr_at(ts, p1).1;
                lemma_expr_agree(ts, us, d, p1);
                assert(peek_at(ts, p2) == peek_at(us, p2 + d));
            }
        }
    }
}

#[verifier::rlimit(40)]
proof fn lemma_if_agree(ts: Seq<TokenV>, us: Seq<TokenV>, d: int, p: int)
    requires
        0 <= p <= ts.len(),
        0 <= p + d <= us.len(),
        agree(ts, us, d, p, parse_if_at(ts, p).1),
        parse_if_at(ts, p).0 is Err ==> agree(ts, us, d, p, parse_if_at(ts, p).1 + 1),
        else_alike(ts, us, d, parse_if_at(ts, p).1),
    ensures
        parse_if_at(us, p + d) == (parse_if_at(ts, p).0, parse_if_at(ts, p).1 + d),
    decreases ts.len() - p, 4int,
{
    lemma_if_pos(ts, p);
    assert(peek_at(ts, p) == peek_at(us, p + d));
    let (r0, p0) = expect_at(ts, p, TokenV::If);
    if r0 is Ok {
        lemma_condition_pos(ts, p0);
        let (r1, p1) = parse_condition_at(ts, p0);
        if r1 is Ok {
            lemma_braced_pos(ts, p1);
            let (r2, p2) = parse_braced_at(ts, p1);
            if r2 is Ok && peek_at(ts, p2) == Some(TokenV::Else) {
                lemma_braced_pos(ts, p2 + 1);
            }
        }
        lemma_condition_agree(ts, us, d, p0);
        lemma_condition_pos(us, p0 + d);
        if r1 is Ok {
            lemma_braced_agree(ts, us, d, p1);
            let (r2, p2) = parse_braced_at(ts, p1);
            if r2 is Ok {
                if peek_at(ts, p2) == Some(TokenV::Else) {
                    assert(peek_at(ts, p2) == peek_at(us, p2 + d));
                    lemma_braced_agree(ts, us, d, p2 + 1);
                }
            }
        }
    }
}

proof fn lemma_while_agree(ts: Seq<TokenV>, us: Seq<TokenV>, d: int, p: int)
    requires
        0 <= p <= ts.len(),
        0 <= p + d <= us.len(),
        agree(ts, us, d, p, parse_while_at(ts, p).1),
        parse_while_at(ts, p).0 is Err ==> agree(ts, us, d, p, parse_while_at(ts, p).1 + 1),
    ensures
        parse_while_at(us, p + d) == (parse_while_at(ts, p).0, parse_while_at(ts, p).1 + d),
    decreases ts.len() - p, 4int,
{
    lemma_while_pos(ts, p);
    assert(peek_at(ts, p) == peek_at(us, p + d));
    let (r0, p0) = expect_at(ts, p, TokenV::While);
    if r0 is Ok {
        lemma_condition_pos(ts, p0);
        let (r1, p1) = parse_condition_at(ts, p0);
        if r1 is Ok {
            lemma_braced_pos(ts, p1);
        }
        lemma_condition_agree(ts, us, d, p0);
        lemma_condition_pos(us, p0 + d);
        if r1 is Ok {
            lemma_braced_agree(ts, us, d, p1);
        }
    }
}

proof fn lemma_statement_agree(ts: Seq<TokenV>, us: Seq<TokenV>, d: int, p: int)
    requires
        0 <= p <= ts.len(),
        0 <= p + d <= us.len(),
        agree(ts, us, d, p, parse_statement_at(ts, p).1),
        parse_statement_at(ts, p).0 is Err ==> agree(
            ts,
            us,
            d,
            p,
            parse_statement_at(ts, p).1 + 1,
        ),
        else_alike(ts, us, d, parse_statement_at(ts, p).1),
    ensures
        parse_statement_at(us, p + d) == (
            parse_statement_at(ts, p).0,
            parse_statement_at(ts, p).1 + d,
        ),
    decreases ts.len() - p, 5int,
{
    lemma_statement_pos(ts, p);
    assert(peek_at(ts, p) == peek_at(us, p + d));
    match peek_at(ts, p) {
        Some(TokenV::Fn) => lemma_function_agree(ts, us, d, p),
        Some(TokenV::Let) => lemma_let_agree(ts, us, d, p),
        Some(TokenV::If) => lemma_if_agree(ts, us, d, p),
        Some(TokenV::While) => lemma_while_agree(ts, us, d, p),
        Some(TokenV::Identifier(_)) => {
            if p + 1 < ts.len() {
                lemma_expr_pos(ts, p + 2);
                lemma_args_pos(ts, p + 2);
            }
            assert(peek_at(ts, p + 1) == peek_at(us, p + 1 + d));
            match peek_at(ts, p + 1) {
                Some(TokenV::Assign) => {
                    let p2 = parse_expr_at(ts, p + 2).1;
                    lemma_expr_agree(ts, us, d, p + 2);
                    assert(peek_at(ts, p2) == peek_at(us, p2 + d));
                },
                Some(TokenV::OpenParen) => {
                    let p2 = parse_args_at(ts, p + 2).1;
                    lemma_args_agree(ts, us, d, p + 2);
                    assert(peek_at(ts, p2) == peek_at(us, p2 + d));
                },
                _ => {},
            }
        },
        _ => {},
    }
}

// ---------------------------------------------------------------- programs

proof fn lemma_agree_shift(pre: Seq<TokenV>, t: Seq<TokenV>)
    ensures
        forall|k: int| 0 <= k ==> #[trigger] peek_at(t, k) == peek_at(pre + t, k + pre.len()),
{
    assert forall|k: int| 0 <= k implies #[trigger] peek_at(t, k) == peek_at(
        pre + t,
        k + pre.len(),
    ) by {
        if k < t.len() {
            assert((pre + t)[k + pre.len()] == t[k]);
        }
    }
}

/// Parsing a program from a place in `pre ++ t` inside `t` gives what parsing
/// it from that place in `t` gives.
proof fn lemma_program_shift(pre: Seq<TokenV>, t: Seq<TokenV>, p: int, acc: Seq<StatementV>)
    requires
        0 <= p <= t.len(),
    ensures
        parse_program_at(pre + t, pre.len() + p, acc) == (
            parse_program_at(t, p, acc).0,
            parse_program_at(t, p, acc).1 + pre.len(),
        ),
    decreases t.len() - p,
{
    let u = pre + t;
    let n = pre.len() as int;
    lemma_agree_shift(pre, t);
    assert(peek_at(t, p) == peek_at(u, p + n));
    if peek_at(t, p) is Some {
        lemma_statement_pos(t, p);
        let (r, p2) = parse_statement_at(t, p);
        assert(peek_at(t, p2) == peek_at(u, p2 + n));
        lemma_statement_agree(t, u, n, p);
        lemma_statement_pos(u, p + n);
        if let Ok(s) = r {
            lemma_program_shift(pre, t, p2, acc.push(s));
        }
    }
}

/// When `t1` parses from `p` to its end, parsing `t1 ++ t2` from `p` reads the
/// same statements and goes on at the start of `t2`, unless `t2` starts with
/// `else`.
proof fn lemma_program_extend(t1: Seq<TokenV>, t2: Seq<TokenV>, p: int, acc: Seq<StatementV>)
    requires
        0 <= p <= t1.len(),
        parse_program_at(t1, p, acc).0 is Ok,
        peek_at(t2, 0) != Some(TokenV::Else),
    ensures
        parse_program_at(t1 + t2, p, acc) == parse_program_at(
            t1 + t2,
            t1.len() as int,
            parse_program_at(t1, p, acc).0->Ok_0,
        ),
    decreases t1.len() - p,
{
    let u = t1 + t2;
    let n = t1.len() as int;
    assert forall|k: int| 0 <= k < n implies #[trigger] peek_at(t1, k) == peek_at(u, k + 0) by {
        assert(u[k] == t1[k]);
    }
    assert(peek_at(u, n) == peek_at(t2, 0)) by {
        if t2.len() > 0 {
            assert(u[n] == t2[0]);
        }
    }
    if peek_at(t1, p) is Some {
        assert(peek_at(t1, p) == peek_at(u, p));
        lemma_statement_pos(t1, p);
        let (r, p2) = parse_statement_at(t1, p);
        if p2 < n {
            assert(peek_at(t1, p2) == peek_at(u, p2 + 0));
        }
        lemma_statement_agree(t1, u, 0, p);
        lemma_statement_pos(u, p);
        if let Ok(s) = r {
            lemma_program_extend(t1, t2, p2, acc.push(s));
        }
    }
}

/// The statements `acc` before the statements of `r`, or the error of `r`.
pub open spec fn prepend_statements(
    acc: Seq<StatementV>,
    r: Result<Seq<StatementV>, ParseErrorV>,
) -> Result<Seq<StatementV>, ParseErrorV> {
    match r {
        Ok(ss) => Ok(acc + ss),
        Err(e) => Err(e),
    }
}

proof fn lemma_program_acc(ts: Seq<TokenV>, p: int, acc: Seq<StatementV>)
    requires
        0 <= p <= ts.len(),
    ensures
        parse_program_at(ts, p, acc) == (
            prepend_statements(acc, parse_program_at(ts, p, seq![]).0),
            parse_program_at(ts, p, seq![]).1,
        ),
    decreases ts.len() - p,
{
    if peek_at(ts, p) is None {
        assert(acc + Seq::<StatementV>::empty() =~= acc);
    } else {
        lemma_statement_pos(ts, p);
        let (r, p2) = parse_statement_at(ts, p);
        if let Ok(s) = r {
            lemma_program_acc(ts, p2, acc.push(s));
            lemma_program_acc(ts, p2, seq![s]);
            assert(Seq::<StatementV>::empty().push(s) =~= seq![s]);
            match parse_program_at(ts, p2, seq![]).0 {
                Ok(ss) => {
                    assert(acc.push(s) + ss =~= acc + (seq![s] + ss));
                },
                Err(_) => {},
            }
        }
    }
}

/// Statements are self-delimiting: when the tokens `t1` are a program and
/// `t2` does not start with `else`, the tokens `t1` followed by `t2` are parsed
/// into the statements of `t1` followed by those of `t2`, or fail with the
/// error that `t2` alone fails with.
pub proof fn lemma_parse_concat(t1: Seq<TokenV>, t2: Seq<TokenV>)
    requires
        parse_program(t1) is Ok,
        peek_at(t2, 0) != Some(TokenV::Else),
    ensures
        parse_program(t1 + t2) == prepend_statements(parse_program(t1)->Ok_0, parse_program(t2)),
{
    let s1 = parse_program(t1)->Ok_0;
    lemma_program_extend(t1, t2, 0, seq![]);
    lemma_program_shift(t1, t2, 0, s1);
    lemma_program_acc(t2, 0, s1);
}

} // verus!
