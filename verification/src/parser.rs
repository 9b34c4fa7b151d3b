//! The recursive-descent parser: tokens to statements.
//!
//! Each parsing function is specified by a function on the token views and a
//! position, which gives the result (a value or an error) and the position the
//! parser is left at. Operators associate to the left and all have one
//! precedence.
//!
//! Where a definition goes on from a position that an inner parse returned, it
//! first tests that the position has moved forward and stays within the tokens.
//! The parser never moves back, so the other branch is never taken; the test
//! only makes the definition's termination evident.
use vstd::prelude::*;
use crate::ast::{
    Token, TokenV, Expr, ExprV, Statement, StatementV, tokens_view, exprs_view, stmts_view,
    copy_token, same_token, group_view_lemmas,
};

verus! {

broadcast use group_view_lemmas;

/// Why a token stream is not a program.
#[derive(Debug, Clone, PartialEq)]
pub enum ParseError {
    /// A token other than the one the grammar asks for here.
    Expected { expected: Token, found: Token },
    /// The tokens end where the grammar asks for one more.
    UnexpectedEnd,
    /// `let` is not followed by an identifier.
    ExpectedVariableName,
    /// `fn` is not followed by an identifier.
    ExpectedFunctionName,
    /// An argument is followed by neither `)` nor `,`.
    ExpectedCloseParenOrComma,
    /// A statement that starts with an identifier goes on with neither `=` nor `(`.
    UnexpectedAfterIdentifier(Option<Token>),
    /// No statement starts with this token (or with the end of the tokens).
    UnknownStatement(Option<Token>),
    /// No expression starts with this token (or with the end of the tokens).
    ExpectedExpression(Option<Token>),
}

/// The mathematical value of a [`ParseError`].
pub enum ParseErrorV {
    Expected { expected: TokenV, found: TokenV },
    UnexpectedEnd,
    ExpectedVariableName,
    ExpectedFunctionName,
    ExpectedCloseParenOrComma,
    UnexpectedAfterIdentifier(Option<TokenV>),
    UnknownStatement(Option<TokenV>),
    ExpectedExpression(Option<TokenV>),
}

pub open spec fn opt_token_view(t: Option<Token>) -> Option<TokenV> {
    match t {
        Some(t) => Some(t@),
        None => None,
    }
}

impl View for ParseError {
    type V = ParseErrorV;

    open spec fn view(&self) -> ParseErrorV {
        match *self {
            ParseError::Expected { expected, found } => ParseErrorV::Expected {
                expected: expected@,
                found: found@,
            },
            ParseError::UnexpectedEnd => ParseErrorV::UnexpectedEnd,
            ParseError::ExpectedVariableName => ParseErrorV::ExpectedVariableName,
            ParseError::ExpectedFunctionName => ParseErrorV::ExpectedFunctionName,
            ParseError::ExpectedCloseParenOrComma => ParseErrorV::ExpectedCloseParenOrComma,
            ParseError::UnexpectedAfterIdentifier(t) => ParseErrorV::UnexpectedAfterIdentifier(
                opt_token_view(t),
            ),
            ParseError::UnknownStatement(t) => ParseErrorV::UnknownStatement(opt_token_view(t)),
            ParseError::ExpectedExpression(t) => ParseErrorV::ExpectedExpression(opt_token_view(t)),
        }
    }
}

/// The view of a parsing result whose value is seen through `f`.
pub open spec fn result_view<T, V>(r: Result<T, ParseError>, f: spec_fn(T) -> V) -> Result<
    V,
    ParseErrorV,
> {
    match r {
        Ok(v) => Ok(f(v)),
        Err(e) => Err(e@),
    }
}

// ---------------------------------------------------------------- grammar

/// The token at position `p`, if there is one.
pub open spec fn peek_at(ts: Seq<TokenV>, p: int) -> Option<TokenV> {
    if 0 <= p < ts.len() {
        Some(ts[p])
    } else {
        None
    }
}

/// The position after the token at `p` (the same position at the end).
pub open spec fn after(ts: Seq<TokenV>, p: int) -> int {
    if 0 <= p < ts.len() {
        p + 1
    } else {
        p
    }
}

/// Reads one token, which must be `e`.
pub open spec fn expect_at(ts: Seq<TokenV>, p: int, e: TokenV) -> (Result<(), ParseErrorV>, int) {
    if 0 <= p < ts.len() {
        if ts[p] == e {
            (Ok(()), p + 1)
        } else {
            (Err(ParseErrorV::Expected { expected: e, found: ts[p] }), p + 1)
        }
    } else {
        (Err(ParseErrorV::UnexpectedEnd), p)
    }
}

pub open spec fn is_binary_operator(t: TokenV) -> bool {
    match t {
        TokenV::Plus | TokenV::Minus | TokenV::Less | TokenV::Equal | TokenV::NotEqual
        | TokenV::LessEqual | TokenV::GreaterEqual | TokenV::Greater => true,
        _ => false,
    }
}

/// The text of a binary operator.
pub open spec fn operator_text(t: TokenV) -> Seq<char> {
    match t {
        TokenV::Plus => "+"@,
        TokenV::Minus => "-"@,
        TokenV::Less => "<"@,
        TokenV::Equal => "=="@,
        TokenV::NotEqual => "!="@,
        TokenV::LessEqual => "<="@,
        TokenV::GreaterEqual => ">="@,
        _ => ">"@,
    }
}

/// `primary := identifier | identifier '(' args | number | '(' expr ')'`
pub open spec fn parse_primary_at(ts: Seq<TokenV>, p: int) -> (Result<ExprV, ParseErrorV>, int)
    decreases ts.len() - p, 0int,
{
    match peek_at(ts, p) {
        Some(TokenV::Identifier(name)) => if peek_at(ts, p + 1) == Some(TokenV::OpenParen) {
            let (r, p2) = parse_args_at(ts, p + 2);
            match r {
                Ok(args) => (Ok(ExprV::Call { name, args }), p2),
                Err(e) => (Err(e), p2),
            }
        } else {
            (Ok(ExprV::Variable(name)), p + 1)
        },
        Some(TokenV::Number(n)) => (Ok(ExprV::Number(n)), p + 1),
        Some(TokenV::OpenParen) => {
            let (r, p2) = parse_expr_at(ts, p + 1);
            match r {
                Ok(e) => {
                    let (r3, p3) = expect_at(ts, p2, TokenV::CloseParen);
                    match r3 {
                        Ok(_) => (Ok(e), p3),
                        Err(x) => (Err(x), p3),
                    }
                },
                Err(e) => (Err(e), p2),
            }
        },
        other => (Err(ParseErrorV::ExpectedExpression(other)), p),
    }
}

/// `expr := primary (operator primary)*`, folded to the left.
pub open spec fn parse_expr_at(ts: Seq<TokenV>, p: int) -> (Result<ExprV, ParseErrorV>, int)
    decreases ts.len() - p, 1int,
{
    let (r, p2) = parse_primary_at(ts, p);
    match r {
        Ok(left) => if p <= p2 <= ts.len() {
            parse_expr_rest_at(ts, p2, left)
        } else {
            (Ok(left), p2)
        },
        Err(e) => (Err(e), p2),
    }
}

/// The operators and operands that follow `left`.
pub open spec fn parse_expr_rest_at(ts: Seq<TokenV>, p: int, left: ExprV) -> (
    Result<ExprV, ParseErrorV>,
    int,
)
    decreases ts.len() - p, 0int,
{
    match peek_at(ts, p) {
        Some(t) => if is_binary_operator(t) {
            let (r, p3) = parse_primary_at(ts, p + 1);
            match r {
                Ok(right) => {
                    let e = ExprV::BinaryOp {
                        left: Box::new(left),
                        op: operator_text(t),
                        right: Box::new(right),
                    };
                    if p + 1 <= p3 <= ts.len() {
                        parse_expr_rest_at(ts, p3, e)
                    } else {
                        (Ok(e), p3)
                    }
                },
                Err(e) => (Err(e), p3),
            }
        } else {
            (Ok(left), p)
        },
        None => (Ok(left), p),
    }
}

/// The arguments of a call, after its `(`: `')' | expr (',' expr)* ')'`.
pub open spec fn parse_args_at(ts: Seq<TokenV>, p: int) -> (Result<Seq<ExprV>, ParseErrorV>, int)
    decreases ts.len() - p, 3int,
{
    if peek_at(ts, p) == Some(TokenV::CloseParen) {
        (Ok(seq![]), p + 1)
    } else {
        parse_arg_list_at(ts, p, seq![])
    }
}

/// The arguments from `p` on, after the arguments `acc`.
pub open spec fn parse_arg_list_at(ts: Seq<TokenV>, p: int, acc: Seq<ExprV>) -> (
    Result<Seq<ExprV>, ParseErrorV>,
    int,
)
    decreases ts.len() - p, 2int,
{
    let (r, p2) = parse_expr_at(ts, p);
    match r {
        Ok(e) => if p <= p2 {
            match peek_at(ts, p2) {
                Some(TokenV::CloseParen) => (Ok(acc.push(e)), p2 + 1),
                Some(TokenV::Comma) => parse_arg_list_at(ts, p2 + 1, acc.push(e)),
                _ => (Err(ParseErrorV::ExpectedCloseParenOrComma), p2),
            }
        } else {
            (Err(ParseErrorV::ExpectedCloseParenOrComma), p2)
        },
        Err(e) => (Err(e), p2),
    }
}

/// The statements from `p` up to a `}` or the end, after the statements `acc`.
pub open spec fn parse_block_at(ts: Seq<TokenV>, p: int, acc: Seq<StatementV>) -> (
    Result<Seq<StatementV>, ParseErrorV>,
    int,
)
    decreases ts.len() - p, 6int,
{
    match peek_at(ts, p) {
        None => (Ok(acc), p),
        Some(TokenV::CloseBrace) => (Ok(acc), p),
        Some(_) => {
            let (r, p2) = parse_statement_at(ts, p);
            match r {
                Ok(s) => if p < p2 <= ts.len() {
                    parse_block_at(ts, p2, acc.push(s))
                } else {
                    (Ok(acc.push(s)), p2)
                },
                Err(e) => (Err(e), p2),
            }
        },
    }
}

/// `'{' block '}'`: a braced block.
pub open spec fn parse_braced_at(ts: Seq<TokenV>, p: int) -> (
    Result<Seq<StatementV>, ParseErrorV>,
    int,
)
    decreases ts.len() - p, 6int,
{
    let (r0, p0) = expect_at(ts, p, TokenV::OpenBrace);
    match r0 {
        Err(e) => (Err(e), p0),
        Ok(_) => {
            let (r1, p1) = parse_block_at(ts, p0, seq![]);
            match r1 {
                Err(e) => (Err(e), p1),
                Ok(body) => {
                    let (r2, p2) = expect_at(ts, p1, TokenV::CloseBrace);
                    match r2 {
                        Err(e) => (Err(e), p2),
                        Ok(_) => (Ok(body), p2),
                    }
                },
            }
        },
    }
}

/// `'(' expr ')'`: a parenthesized condition.
pub open spec fn parse_condition_at(ts: Seq<TokenV>, p: int) -> (Result<ExprV, ParseErrorV>, int)
    decreases ts.len() - p, 6int,
{
    let (r0, p0) = expect_at(ts, p, TokenV::OpenParen);
    match r0 {
        Err(e) => (Err(e), p0),
        Ok(_) => {
            let (r1, p1) = parse_expr_at(ts, p0);
            match r1 {
                Err(e) => (Err(e), p1),
                Ok(c) => {
                    let (r2, p2) = expect_at(ts, p1, TokenV::CloseParen);
                    match r2 {
                        Err(e) => (Err(e), p2),
                        Ok(_) => (Ok(c), p2),
                    }
                },
            }
        },
    }
}

/// `fn name '(' ')' '{' block '}'`
pub open spec fn parse_function_at(ts: Seq<TokenV>, p: int) -> (
    Result<StatementV, ParseErrorV>,
    int,
)
    decreases ts.len() - p, 4int,
{
    let (r0, p0) = expect_at(ts, p, TokenV::Fn);
    match r0 {
        Err(e) => (Err(e), p0),
        Ok(_) => match peek_at(ts, p0) {
            Some(TokenV::Identifier(name)) => {
                let (r1, p1) = expect_at(ts, p0 + 1, TokenV::OpenParen);
                match r1 {
                    Err(e) => (Err(e), p1),
                    Ok(_) => {
                        let (r2, p2) = expect_at(ts, p1, TokenV::CloseParen);
                        match r2 {
                            Err(e) => (Err(e), p2),
                            Ok(_) => {
                                let (r3, p3) = parse_braced_at(ts, p2);
                                match r3 {
                                    Err(e) => (Err(e), p3),
                                    Ok(body) => (Ok(StatementV::Function { name, body }), p3),
                                }
                            },
                        }
                    },
                }
            },
            _ => (Err(ParseErrorV::ExpectedFunctionName), after(ts, p0)),
        },
    }
}

/// `let name '=' expr ';'`
pub open spec fn parse_let_at(ts: Seq<TokenV>, p: int) -> (Result<StatementV, ParseErrorV>, int)
    decreases ts.len() - p, 4int,
{
    let (r0, p0) = expect_at(ts, p, TokenV::Let);
    match r0 {
        Err(e) => (Err(e), p0),
        Ok(_) => match peek_at(ts, p0) {
            Some(TokenV::Identifier(name)) => {
                let (r1, p1) = expect_at(ts, p0 + 1, TokenV::Assign);
                match r1 {
                    Err(e) => (Err(e), p1),
                    Ok(_) => {
                        let (r2, p2) = parse_expr_at(ts, p1);
                        match r2 {
                            Err(e) => (Err(e), p2),
                            Ok(value) => {
                                let (r3, p3) = expect_at(ts, p2, TokenV::Semicolon);
                                match r3 {
                                    Err(e) => (Err(e), p3),
                                    Ok(_) => (Ok(StatementV::Let { name, value }), p3),
                                }
                            },
                        }
                    },
                }
            },
            _ => (Err(ParseErrorV::ExpectedVariableName), after(ts, p0)),
        },
    }
}

/// `if '(' expr ')' '{' block '}' (else '{' block '}')?`
pub open spec fn parse_if_at(ts: Seq<TokenV>, p: int) -> (Result<StatementV, ParseErrorV>, int)
    decreases ts.len() - p, 4int,
{
    let (r0, p0) = expect_at(ts, p, TokenV::If);
    match r0 {
        Err(e) => (Err(e), p0),
        Ok(_) => {
            let (r1, p1) = parse_condition_at(ts, p0);
            match r1 {
                Err(e) => (Err(e), p1),
                Ok(condition) => if !(p < p1 <= ts.len()) {
                    (Ok(StatementV::If { condition, then_branch: seq![], else_branch: None }), p1)
                } else {
                    let (r2, p2) = parse_braced_at(ts, p1);
                    match r2 {
                        Err(e) => (Err(e), p2),
                        Ok(then_branch) => if p <= p2 && peek_at(ts, p2) == Some(TokenV::Else) {
                            let (r3, p3) = parse_braced_at(ts, p2 + 1);
                            match r3 {
                                Err(e) => (Err(e), p3),
                                Ok(eb) => (
                                    Ok(
                                        StatementV::If {
                                            condition,
                                            then_branch,
                                            else_branch: Some(eb),
                                        },
                                    ),
                                    p3,
                                ),
                            }
                        } else {
                            (Ok(StatementV::If { condition, then_branch, else_branch: None }), p2)
                        },
                    }
                },
            }
        },
    }
}

/// `while '(' expr ')' '{' block '}'`
pub open spec fn parse_while_at(ts: Seq<TokenV>, p: int) -> (Result<StatementV, ParseErrorV>, int)
    decreases ts.len() - p, 4int,
{
    let (r0, p0) = expect_at(ts, p, TokenV::While);
    match r0 {
        Err(e) => (Err(e), p0),
        Ok(_) => {
            let (r1, p1) = parse_condition_at(ts, p0);
            match r1 {
                Err(e) => (Err(e), p1),
                Ok(condition) => if !(p < p1 <= ts.len()) {
                    (Ok(StatementV::While { condition, body: seq![] }), p1)
                } else {
                    let (r2, p2) = parse_braced_at(ts, p1);
                    match r2 {
                        Err(e) => (Err(e), p2),
                        Ok(body) => (Ok(StatementV::While { condition, body }), p2),
                    }
                },
            }
        },
    }
}

/// `statement := function | let | if | while | name '=' expr ';' | name '(' args ';'`
pub open spec fn parse_statement_at(ts: Seq<TokenV>, p: int) -> (
    Result<StatementV, ParseErrorV>,
    int,
)
    decreases ts.len() - p, 5int,
{
    match peek_at(ts, p) {
        Some(TokenV::Fn) => parse_function_at(ts, p),
        Some(TokenV::Let) => parse_let_at(ts, p),
        Some(TokenV::If) => parse_if_at(ts, p),
        Some(TokenV::While) => parse_while_at(ts, p),
        Some(TokenV::Identifier(name)) => match peek_at(ts, p + 1) {
            Some(TokenV::Assign) => {
                let (r, p2) = parse_expr_at(ts, p + 2);
                match r {
                    Err(e) => (Err(e), p2),
                    Ok(value) => {
                        let (r3, p3) = expect_at(ts, p2, TokenV::Semicolon);
                        match r3 {
                            Err(e) => (Err(e), p3),
                            Ok(_) => (Ok(StatementV::Assign { name, value }), p3),
                        }
                    },
                }
            },
            Some(TokenV::OpenParen) => {
                let (r, p2) = parse_args_at(ts, p + 2);
                match r {
                    Err(e) => (Err(e), p2),
                    Ok(args) => {
                        let (r3, p3) = expect_at(ts, p2, TokenV::Semicolon);
                        match r3 {
                            Err(e) => (Err(e), p3),
                            Ok(_) => (Ok(StatementV::Expression(ExprV::Call { name, args })), p3),
                        }
                    },
                }
            },
            other => (Err(ParseErrorV::UnexpectedAfterIdentifier(other)), p + 1),
        },
        other => (Err(ParseErrorV::UnknownStatement(other)), p),
    }
}

/// `program := statement*` from `p` to the end, after the statements `acc`.
pub open spec fn parse_program_at(ts: Seq<TokenV>, p: int, acc: Seq<StatementV>) -> (
    Result<Seq<StatementV>, ParseErrorV>,
    int,
)
    decreases ts.len() - p,
{
    if peek_at(ts, p) is None {
        (Ok(acc), p)
    } else {
        let (r, p2) = parse_statement_at(ts, p);
        match r {
            Ok(s) => if p < p2 <= ts.len() {
                parse_program_at(ts, p2, acc.push(s))
            } else {
                (Ok(acc.push(s)), p2)
            },
            Err(e) => (Err(e), p2),
        }
    }
}


// ---------------------------------------------------------------- parser

/// A parser over a token stream, with the position of the next token to read.
pub struct Parser {
    tokens: Vec<Token>,
    pos: usize,
}

/// The mathematical value of a [`Parser`]: its tokens and its position.
pub struct ParserV {
    pub tokens: Seq<TokenV>,
    pub pos: int,
}

impl View for Parser {
    type V = ParserV;

    closed spec fn view(&self) -> ParserV {
        ParserV { tokens: tokens_view(self.tokens@), pos: self.pos as int }
    }
}

pub open spec fn expr_result(r: Result<Expr, ParseError>) -> Result<ExprV, ParseErrorV> {
    result_view(r, |e: Expr| e@)
}

pub open spec fn exprs_result(r: Result<Vec<Expr>, ParseError>) -> Result<Seq<ExprV>, ParseErrorV> {
    result_view(r, |v: Vec<Expr>| exprs_view(v@))
}

pub open spec fn stmt_result(r: Result<Statement, ParseError>) -> Result<StatementV, ParseErrorV> {
    result_view(r, |s: Statement| s@)
}

pub open spec fn stmts_result(r: Result<Vec<Statement>, ParseError>) -> Result<
    Seq<StatementV>,
    ParseErrorV,
> {
    result_view(r, |v: Vec<Statement>| stmts_view(v@))
}

pub open spec fn unit_result(r: Result<(), ParseError>) -> Result<(), ParseErrorV> {
    result_view(r, |u: ()| u)
}

impl Parser {
    #[verifier::type_invariant]
    closed spec fn position_in_range(self) -> bool {
        self.pos <= self.tokens@.len()
    }

    /// A parser at the first of `tokens`.
    pub fn new(tokens: Vec<Token>) -> (p: Self)
        ensures
            p@ == (ParserV { tokens: tokens_view(tokens@), pos: 0 }),
    {
        Parser { tokens, pos: 0 }
    }

    /// The next token, if any, without reading it.
    fn peek(&self) -> (r: Option<&Token>)
        ensures
            match r {
                Some(t) => self.pos < self.tokens@.len() && *t == self.tokens@[self.pos as int],
                None => self.pos >= self.tokens@.len(),
            },
    {
        if self.pos < self.tokens.len() {
            Some(&self.tokens[self.pos])
        } else {
            None
        }
    }

    /// A copy of the next token, if any, without reading it.
    fn peek_token(&self) -> (r: Option<Token>)
        ensures
            opt_token_view(r) == peek_at(self@.tokens, self@.pos),
    {
        match self.peek() {
            Some(t) => Some(copy_token(t)),
            None => None,
        }
    }

    /// Reads the next token, if any.
    fn next(&mut self) -> (r: Option<Token>)
        ensures
            final(self)@.tokens == old(self)@.tokens,
            opt_token_view(r) == peek_at(old(self)@.tokens, old(self)@.pos),
            final(self)@.pos == after(old(self)@.tokens, old(self)@.pos),
    {
        proof {
            use_type_invariant(&*self);
        }
        if self.pos < self.tokens.len() {
            let tok = copy_token(&self.tokens[self.pos]);
            self.pos = self.pos + 1;
            Some(tok)
        } else {
            None
        }
    }

    /// Whether the next token closes a block (or there is none).
    fn at_block_end(&self) -> (r: bool)
        ensures
            r == (peek_at(self@.tokens, self@.pos) is None || peek_at(self@.tokens, self@.pos)
                == Some(TokenV::CloseBrace)),
    {
        match self.peek() {
            None => true,
            Some(Token::CloseBrace) => true,
            Some(_) => false,
        }
    }

    /// The text of the next token if it is a binary operator.
    fn peek_operator(&self) -> (r: Option<&'static str>)
        ensures
            match r {
                Some(op) => peek_at(self@.tokens, self@.pos) matches Some(t) && is_binary_operator(
                    t,
                ) && op@ == operator_text(t),
                None => !(peek_at(self@.tokens, self@.pos) matches Some(t) && is_binary_operator(
                    t,
                )),
            },
    {
        match self.peek() {
            Some(Token::Plus) => Some("+"),
            Some(Token::Minus) => Some("-"),
            Some(Token::Less) => Some("<"),
            Some(Token::Equal) => Some("=="),
            Some(Token::NotEqual) => Some("!="),
            Some(Token::LessEqual) => Some("<="),
            Some(Token::GreaterEqual) => Some(">="),
            Some(Token::Greater) => Some(">"),
            _ => None,
        }
    }

    /// Reads the next token, which must be `expected`.
    fn expect(&mut self, expected: Token) -> (r: Result<(), ParseError>)
        ensures
            final(self)@.tokens == old(self)@.tokens,
            (unit_result(r), final(self)@.pos) == expect_at(
                old(self)@.tokens,
                old(self)@.pos,
                expected@,
            ),
    {
        if let Some(tok) = self.next() {
            if same_token(&tok, &expected) {
                Ok(())
            } else {
                Err(ParseError::Expected { expected, found: tok })
            }
        } else {
            Err(ParseError::UnexpectedEnd)
        }
    }

    /// `primary := identifier | identifier '(' args | number | '(' expr ')'`
    fn parse_primary(&mut self) -> (r: Result<Expr, ParseError>)
        ensures
            final(self)@.tokens == old(self)@.tokens,
            (expr_result(r), final(self)@.pos) == parse_primary_at(
                old(self)@.tokens,
                old(self)@.pos,
            ),
            old(self)@.pos <= final(self)@.pos,
            r is Ok ==> old(self)@.pos < final(self)@.pos,
        decreases old(self)@.tokens.len() - old(self)@.pos, 0int,
    {
        proof {
            use_type_invariant(&*self);
        }
        match self.peek_token() {
            Some(Token::Identifier(name)) => {
                self.next();
                if let Some(Token::OpenParen) = self.peek() {
                    self.next();
                    let args = self.parse_call_args()?;
                    Ok(Expr::Call { name, args })
                } else {
                    Ok(Expr::Variable(name))
                }
            },
            Some(Token::Number(n)) => {
                self.next();
                Ok(Expr::Number(n))
            },
            Some(Token::OpenParen) => {
                self.next();
                let expr = self.parse_expr()?;
                self.expect(Token::CloseParen)?;
                Ok(expr)
            },
            other => Err(ParseError::ExpectedExpression(other)),
        }
    }

    /// `expr := primary (operator primary)*`, folded to the left.
    fn parse_expr(&mut self) -> (r: Result<Expr, ParseError>)
        ensures
            final(self)@.tokens == old(self)@.tokens,
            (expr_result(r), final(self)@.pos) == parse_expr_at(old(self)@.tokens, old(self)@.pos),
            old(self)@.pos <= final(self)@.pos,
            r is Ok ==> old(self)@.pos < final(self)@.pos,
        decreases old(self)@.tokens.len() - old(self)@.pos, 1int,
    {
        let ghost ts = self@.tokens;
        let ghost p = self@.pos;
        let mut left = self.parse_primary()?;
        proof {
            use_type_invariant(&*self);
        }
        loop
            invariant_except_break
                ts == old(self)@.tokens,
                p == old(self)@.pos,
                self@.tokens == ts,
                p < self@.pos <= ts.len(),
                parse_expr_at(ts, p) == parse_expr_rest_at(ts, self@.pos, left@),
            ensures
                self@.tokens == ts,
                p < self@.pos,
                parse_expr_at(ts, p) == (Ok::<ExprV, ParseErrorV>(left@), self@.pos),
            decreases ts.len() - self@.pos,
        {
            let op = match self.peek_operator() {
                Some(op) => op,
                None => break,
            };
            self.next();
            let right = self.parse_primary()?;
            proof {
                use_type_invariant(&*self);
            }
            left = Expr::BinaryOp { left: Box::new(left), op: op.to_string(), right: Box::new(right) };
        }
        Ok(left)
    }

    /// The arguments of a call, after its `(`: `')' | expr (',' expr)* ')'`.
    fn parse_call_args(&mut self) -> (r: Result<Vec<Expr>, ParseError>)
        ensures
            final(self)@.tokens == old(self)@.tokens,
            (exprs_result(r), final(self)@.pos) == parse_args_at(old(self)@.tokens, old(self)@.pos),
            old(self)@.pos <= final(self)@.pos,
            r is Ok ==> old(self)@.pos < final(self)@.pos,
        decreases old(self)@.tokens.len() - old(self)@.pos, 3int,
    {
        let ghost ts = self@.tokens;
        let ghost p = self@.pos;
        proof {
            use_type_invariant(&*self);
        }
        let mut args: Vec<Expr> = Vec::new();
        if let Some(Token::CloseParen) = self.peek() {
            self.next();
            assert(exprs_view(args@) =~= Seq::<ExprV>::empty());
            return Ok(args);
        }
        assert(exprs_view(args@) =~= Seq::<ExprV>::empty());
        loop
            invariant
                ts == old(self)@.tokens,
                p == old(self)@.pos,
                self@.tokens == ts,
                p <= self@.pos <= ts.len(),
                parse_args_at(ts, p) == parse_arg_list_at(ts, self@.pos, exprs_view(args@)),
            decreases ts.len() - self@.pos,
        {
            let e = self.parse_expr()?;
            proof {
                use_type_invariant(&*self);
            }
            let ghost before = args@;
            args.push(e);
            assert(args@.drop_last() =~= before);
            match self.peek() {
                Some(Token::CloseParen) => {
                    self.next();
                    return Ok(args);
                },
                Some(Token::Comma) => {
                    self.next();
                },
                _ => {
                    return Err(ParseError::ExpectedCloseParenOrComma);
                },
            }
        }
    }

    /// `'{' statement* '}'`: a braced block.
    fn parse_braced(&mut self) -> (r: Result<Vec<Statement>, ParseError>)
        ensures
            final(self)@.tokens == old(self)@.tokens,
            (stmts_result(r), final(self)@.pos) == parse_braced_at(
                old(self)@.tokens,
                old(self)@.pos,
            ),
            old(self)@.pos <= final(self)@.pos,
            r is Ok ==> old(self)@.pos < final(self)@.pos,
        decreases old(self)@.tokens.len() - old(self)@.pos, 6int,
    {
        let ghost ts = self@.tokens;
        let ghost p = self@.pos;
        self.expect(Token::OpenBrace)?;
        proof {
            use_type_invariant(&*self);
        }
        let mut body: Vec<Statement> = Vec::new();
        assert(stmts_view(body@) =~= Seq::<StatementV>::empty());
        while !self.at_block_end()
            invariant
                ts == old(self)@.tokens,
                p == old(self)@.pos,
                self@.tokens == ts,
                p < self@.pos <= ts.len(),
                expect_at(ts, p, TokenV::OpenBrace) == (Ok::<(), ParseErrorV>(()), p + 1),
                parse_block_at(ts, p + 1, seq![]) == parse_block_at(
                    ts,
                    self@.pos,
                    stmts_view(body@),
                ),
            decreases ts.len() - self@.pos,
        {
            let s = self.parse_statement()?;
            proof {
                use_type_invariant(&*self);
            }
            let ghost before = body@;
            body.push(s);
            assert(body@.drop_last() =~= before);
        }
        self.expect(Token::CloseBrace)?;
        Ok(body)
    }

    /// `'(' expr ')'`: the condition of an `if` or a `while`.
    fn parse_condition(&mut self) -> (r: Result<Expr, ParseError>)
        ensures
            final(self)@.tokens == old(self)@.tokens,
            (expr_result(r), final(self)@.pos) == parse_condition_at(
                old(self)@.tokens,
                old(self)@.pos,
            ),
            old(self)@.pos <= final(self)@.pos,
            r is Ok ==> old(self)@.pos < final(self)@.pos,
        decreases old(self)@.tokens.len() - old(self)@.pos, 6int,
    {
        self.expect(Token::OpenParen)?;
        let condition = self.parse_expr()?;
        self.expect(Token::CloseParen)?;
        Ok(condition)
    }

    /// `fn name '(' ')' '{' statement* '}'`
    fn parse_function(&mut self) -> (r: Result<Statement, ParseError>)
        ensures
            final(self)@.tokens == old(self)@.tokens,
            (stmt_result(r), final(self)@.pos) == parse_function_at(
                old(self)@.tokens,
                old(self)@.pos,
            ),
            old(self)@.pos <= final(self)@.pos,
            r is Ok ==> old(self)@.pos < final(self)@.pos,
        decreases old(self)@.tokens.len() - old(self)@.pos, 4int,
    {
        self.expect(Token::Fn)?;
        let name = match self.next() {
            Some(Token::Identifier(id)) => id,
            _ => return Err(ParseError::ExpectedFunctionName),
        };
        self.expect(Token::OpenParen)?;
        self.expect(Token::CloseParen)?;
        let body = self.parse_braced()?;
        Ok(Statement::Function { name, body })
    }

    /// `let name '=' expr ';'`
    fn parse_let(&mut self) -> (r: Result<Statement, ParseError>)
        ensures
            final(self)@.tokens == old(self)@.tokens,
            (stmt_result(r), final(self)@.pos) == parse_let_at(old(self)@.tokens, old(self)@.pos),
            old(self)@.pos <= final(self)@.pos,
            r is Ok ==> old(self)@.pos < final(self)@.pos,
        decreases old(self)@.tokens.len() - old(self)@.pos, 4int,
    {
        self.expect(Token::Let)?;
        let name = match self.next() {
            Some(Token::Identifier(id)) => id,
            _ => return Err(ParseError::ExpectedVariableName),
        };
        self.expect(Token::Assign)?;
        let expr = self.parse_expr()?;
        self.expect(Token::Semicolon)?;
        Ok(Statement::Let { name, value: expr })
    }

    /// `if '(' expr ')' '{' statement* '}' (else '{' statement* '}')?`
    fn parse_if(&mut self) -> (r: Result<Statement, ParseError>)
        ensures
            final(self)@.tokens == old(self)@.tokens,
            (stmt_result(r), final(self)@.pos) == parse_if_at(old(self)@.tokens, old(self)@.pos),
            old(self)@.pos <= final(self)@.pos,
            r is Ok ==> old(self)@.pos < final(self)@.pos,
        decreases old(self)@.tokens.len() - old(self)@.pos, 4int,
    {
        self.expect(Token::If)?;
        let condition = self.parse_condition()?;
        proof {
            use_type_invariant(&*self);
        }
        let then_branch = self.parse_braced()?;
        let mut else_branch = None;
        if let Some(Token::Else) = self.peek() {
            self.next();
            else_branch = Some(self.parse_braced()?);
        }
        Ok(Statement::If { condition, then_branch, else_branch })
    }

    /// `while '(' expr ')' '{' statement* '}'`
    fn parse_while(&mut self) -> (r: Result<Statement, ParseError>)
        ensures
            final(self)@.tokens == old(self)@.tokens,
            (stmt_result(r), final(self)@.pos) == parse_while_at(
                old(self)@.tokens,
                old(self)@.pos,
            ),
            old(self)@.pos <= final(self)@.pos,
            r is Ok ==> old(self)@.pos < final(self)@.pos,
        decreases old(self)@.tokens.len() - old(self)@.pos, 4int,
    {
        self.expect(Token::While)?;
        let condition = self.parse_condition()?;
        proof {
            use_type_invariant(&*self);
        }
        let body = self.parse_braced()?;
        Ok(Statement::While { condition, body })
    }

    /// One statement.
    fn parse_statement(&mut self) -> (r: Result<Statement, ParseError>)
        ensures
            final(self)@.tokens == old(self)@.tokens,
            (stmt_result(r), final(self)@.pos) == parse_statement_at(
                old(self)@.tokens,
                old(self)@.pos,
            ),
            old(self)@.pos <= final(self)@.pos,
            r is Ok ==> old(self)@.pos < final(self)@.pos,
        decreases old(self)@.tokens.len() - old(self)@.pos, 5int,
    {
        proof {
            use_type_invariant(&*self);
        }
        match self.peek_token() {
            Some(Token::Fn) => self.parse_function(),
            Some(Token::Let) => self.parse_let(),
            Some(Token::If) => self.parse_if(),
            Some(Token::While) => self.parse_while(),
            Some(Token::Identifier(name)) => {
                self.next();
                match self.peek_token() {
                    Some(Token::Assign) => {
                        self.next();
                        let value = self.parse_expr()?;
                        self.expect(Token::Semicolon)?;
                        Ok(Statement::Assign { name, value })
                    },
                    Some(Token::OpenParen) => {
                        self.next();
                        let args = self.parse_call_args()?;
                        self.expect(Token::Semicolon)?;
                        Ok(Statement::Expression(Expr::Call { name, args }))
                    },
                    other => Err(ParseError::UnexpectedAfterIdentifier(other)),
                }
            },
            other => Err(ParseError::UnknownStatement(other)),
        }
    }

    /// Parses statements up to the end of the tokens: the whole program when
    /// the parser is new. On success every token has been read.
    pub fn parse(&mut self) -> (r: Result<Vec<Statement>, ParseError>)
        ensures
            final(self)@.tokens == old(self)@.tokens,
            (stmts_result(r), final(self)@.pos) == parse_program_at(
                old(self)@.tokens,
                old(self)@.pos,
                seq![],
            ),
            r is Ok ==> final(self)@.pos == final(self)@.tokens.len(),
    {
        let ghost ts = self@.tokens;
        let ghost p = self@.pos;
        proof {
            use_type_invariant(&*self);
        }
        let mut stmts: Vec<Statement> = Vec::new();
        assert(stmts_view(stmts@) =~= Seq::<StatementV>::empty());
        while self.peek().is_some()
            invariant
                ts == old(self)@.tokens,
                p == old(self)@.pos,
                self@.tokens == ts,
                p <= self@.pos <= ts.len(),
                parse_program_at(ts, p, seq![]) == parse_program_at(
                    ts,
                    self@.pos,
                    stmts_view(stmts@),
                ),
            decreases ts.len() - self@.pos,
        {
            let s = self.parse_statement()?;
            proof {
                use_type_invariant(&*self);
            }
            let ghost before = stmts@;
            stmts.push(s);
            assert(stmts@.drop_last() =~= before);
        }
        Ok(stmts)
    }
}

} // verus!
