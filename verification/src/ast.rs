//! Tokens, syntax trees and the linear log IR, together with their
//! mathematical views (every `String` is seen as its `Seq<char>`).
use vstd::prelude::*;

verus! {

/// A lexical token of the source language.
#[derive(Debug, Clone, PartialEq)]
pub enum Token {
    Fn,
    Let,
    If,
    Else,
    While,
    Identifier(String),
    Number(i32),
    Assign,
    Plus,
    Minus,
    Less,
    Equal,
    NotEqual,
    LessEqual,
    GreaterEqual,
    Greater,
    OpenBrace,
    CloseBrace,
    OpenParen,
    CloseParen,
    Semicolon,
    Comma,
}

/// The mathematical value of a [`Token`].
pub enum TokenV {
    Fn,
    Let,
    If,
    Else,
    While,
    Identifier(Seq<char>),
    Number(i32),
    Assign,
    Plus,
    Minus,
    Less,
    Equal,
    NotEqual,
    LessEqual,
    GreaterEqual,
    Greater,
    OpenBrace,
    CloseBrace,
    OpenParen,
    CloseParen,
    Semicolon,
    Comma,
}

pub open spec fn token_view(t: Token) -> TokenV {
    match t {
        Token::Fn => TokenV::Fn,
        Token::Let => TokenV::Let,
        Token::If => TokenV::If,
        Token::Else => TokenV::Else,
        Token::While => TokenV::While,
        Token::Identifier(s) => TokenV::Identifier(s@),
        Token::Number(n) => TokenV::Number(n),
        Token::Assign => TokenV::Assign,
        Token::Plus => TokenV::Plus,
        Token::Minus => TokenV::Minus,
        Token::Less => TokenV::Less,
        Token::Equal => TokenV::Equal,
        Token::NotEqual => TokenV::NotEqual,
        Token::LessEqual => TokenV::LessEqual,
        Token::GreaterEqual => TokenV::GreaterEqual,
        Token::Greater => TokenV::Greater,
        Token::OpenBrace => TokenV::OpenBrace,
        Token::CloseBrace => TokenV::CloseBrace,
        Token::OpenParen => TokenV::OpenParen,
        Token::CloseParen => TokenV::CloseParen,
        Token::Semicolon => TokenV::Semicolon,
        Token::Comma => TokenV::Comma,
    }
}

impl View for Token {
    type V = TokenV;

    open spec fn view(&self) -> TokenV {
        token_view(*self)
    }
}

/// The views of a sequence of tokens.
pub open spec fn tokens_view(s: Seq<Token>) -> Seq<TokenV> {
    s.map_values(|t: Token| t@)
}

/// A copy of a token that is equal to it.
pub fn copy_token(t: &Token) -> (r: Token)
    ensures
        r == *t,
{
    match t {
        Token::Fn => Token::Fn,
        Token::Let => Token::Let,
        Token::If => Token::If,
        Token::Else => Token::Else,
        Token::While => Token::While,
        Token::Identifier(s) => Token::Identifier(s.clone()),
        Token::Number(n) => Token::Number(*n),
        Token::Assign => Token::Assign,
        Token::Plus => Token::Plus,
        Token::Minus => Token::Minus,
        Token::Less => Token::Less,
        Token::Equal => Token::Equal,
        Token::NotEqual => Token::NotEqual,
        Token::LessEqual => Token::LessEqual,
        Token::GreaterEqual => Token::GreaterEqual,
        Token::Greater => Token::Greater,
        Token::OpenBrace => Token::OpenBrace,
        Token::CloseBrace => Token::CloseBrace,
        Token::OpenParen => Token::OpenParen,
        Token::CloseParen => Token::CloseParen,
        Token::Semicolon => Token::Semicolon,
        Token::Comma => Token::Comma,
    }
}

/// Whether two tokens have the same value (identifiers compared by their text).
pub fn same_token(a: &Token, b: &Token) -> (r: bool)
    ensures
        r == (a@ == b@),
{
    match (a, b) {
        (Token::Fn, Token::Fn) => true,
        (Token::Let, Token::Let) => true,
        (Token::If, Token::If) => true,
        (Token::Else, Token::Else) => true,
        (Token::While, Token::While) => true,
        (Token::Identifier(x), Token::Identifier(y)) => *x == *y,
        (Token::Number(x), Token::Number(y)) => *x == *y,
        (Token::Assign, Token::Assign) => true,
        (Token::Plus, Token::Plus) => true,
        (Token::Minus, Token::Minus) => true,
        (Token::Less, Token::Less) => true,
        (Token::Equal, Token::Equal) => true,
        (Token::NotEqual, Token::NotEqual) => true,
        (Token::LessEqual, Token::LessEqual) => true,
        (Token::GreaterEqual, Token::GreaterEqual) => true,
        (Token::Greater, Token::Greater) => true,
        (Token::OpenBrace, Token::OpenBrace) => true,
        (Token::CloseBrace, Token::CloseBrace) => true,
        (Token::OpenParen, Token::OpenParen) => true,
        (Token::CloseParen, Token::CloseParen) => true,
        (Token::Semicolon, Token::Semicolon) => true,
        (Token::Comma, Token::Comma) => true,
        _ => false,
    }
}

/// An expression of the source language.
#[derive(Debug, PartialEq)]
pub enum Expr {
    Number(i32),
    Variable(String),
    BinaryOp { left: Box<Expr>, op: String, right: Box<Expr> },
    Call { name: String, args: Vec<Expr> },
}

/// The mathematical value of an [`Expr`].
pub enum ExprV {
    Number(i32),
    Variable(Seq<char>),
    BinaryOp { left: Box<ExprV>, op: Seq<char>, right: Box<ExprV> },
    Call { name: Seq<char>, args: Seq<ExprV> },
}

pub open spec fn expr_view(e: Expr) -> ExprV
    decreases e,
{
    match e {
        Expr::Number(n) => ExprV::Number(n),
        Expr::Variable(v) => ExprV::Variable(v@),
        Expr::BinaryOp { left, op, right } => ExprV::BinaryOp {
            left: Box::new(expr_view(*left)),
            op: op@,
            right: Box::new(expr_view(*right)),
        },
        Expr::Call { name, args } => ExprV::Call { name: name@, args: exprs_view(args@) },
    }
}

/// The views of a sequence of expressions.
pub open spec fn exprs_view(s: Seq<Expr>) -> Seq<ExprV>
    decreases s,
{
    if s.len() == 0 {
        Seq::empty()
    } else {
        exprs_view(s.drop_last()).push(expr_view(s.last()))
    }
}

impl View for Expr {
    type V = ExprV;

    open spec fn view(&self) -> ExprV {
        expr_view(*self)
    }
}

/// A statement of the source language.
#[derive(Debug, PartialEq)]
pub enum Statement {
    Let { name: String, value: Expr },
    Assign { name: String, value: Expr },
    Expression(Expr),
    Function { name: String, body: Vec<Statement> },
    If { condition: Expr, then_branch: Vec<Statement>, else_branch: Option<Vec<Statement>> },
    While { condition: Expr, body: Vec<Statement> },
}

/// The mathematical value of a [`Statement`].
pub enum StatementV {
    Let { name: Seq<char>, value: ExprV },
    Assign { name: Seq<char>, value: ExprV },
    Expression(ExprV),
    Function { name: Seq<char>, body: Seq<StatementV> },
    If {
        condition: ExprV,
        then_branch: Seq<StatementV>,
        else_branch: Option<Seq<StatementV>>,
    },
    While { condition: ExprV, body: Seq<StatementV> },
}

pub open spec fn stmt_view(s: Statement) -> StatementV
    decreases s,
{
    match s {
        Statement::Let { name, value } => StatementV::Let { name: name@, value: value@ },
        Statement::Assign { name, value } => StatementV::Assign { name: name@, value: value@ },
        Statement::Expression(e) => StatementV::Expression(e@),
        Statement::Function { name, body } => StatementV::Function {
            name: name@,
            body: stmts_view(body@),
        },
        Statement::If { condition, then_branch, else_branch } => StatementV::If {
            condition: condition@,
            then_branch: stmts_view(then_branch@),
            else_branch: match else_branch {
                Some(b) => Some(stmts_view(b@)),
                None => None,
            },
        },
        Statement::While { condition, body } => StatementV::While {
            condition: condition@,
            body: stmts_view(body@),
        },
    }
}

/// The views of a sequence of statements.
pub open spec fn stmts_view(s: Seq<Statement>) -> Seq<StatementV>
    decreases s,
{
    if s.len() == 0 {
        Seq::empty()
    } else {
        stmts_view(s.drop_last()).push(stmt_view(s.last()))
    }
}

impl View for Statement {
    type V = StatementV;

    open spec fn view(&self) -> StatementV {
        stmt_view(*self)
    }
}

pub broadcast proof fn lemma_exprs_view(s: Seq<Expr>)
    ensures
        #[trigger] exprs_view(s).len() == s.len(),
        forall|i: int| 0 <= i < s.len() ==> #[trigger] exprs_view(s)[i] == s[i]@,
    decreases s.len(),
{
    if s.len() > 0 {
        lemma_exprs_view(s.drop_last());
    }
}

pub broadcast proof fn lemma_stmts_view(s: Seq<Statement>)
    ensures
        #[trigger] stmts_view(s).len() == s.len(),
        forall|i: int| 0 <= i < s.len() ==> #[trigger] stmts_view(s)[i] == s[i]@,
    decreases s.len(),
{
    if s.len() > 0 {
        lemma_stmts_view(s.drop_last());
    }
}

pub broadcast group group_view_lemmas {
    lemma_exprs_view,
    lemma_stmts_view,
}

/// A copy of each expression of `args`.
fn clone_exprs(args: &Vec<Expr>) -> (r: Vec<Expr>)
    ensures
        exprs_view(r@) == exprs_view(args@),
    decreases args@,
{
    let mut v: Vec<Expr> = Vec::new();
    let mut j: usize = 0;
    while j < args.len()
        invariant
            j <= args@.len(),
            v@.len() == j,
            forall|k: int| 0 <= k < j ==> (#[trigger] v@[k])@ == args@[k]@,
        decreases args@.len() - j,
    {
        assert(decreases_to!(args@ => args@[j as int]));
        v.push(clone_expr(&args[j]));
        j = j + 1;
    }
    proof {
        lemma_exprs_view(v@);
        lemma_exprs_view(args@);
    }
    assert(exprs_view(v@) =~= exprs_view(args@));
    v
}

/// A copy of `e`.
fn clone_expr(e: &Expr) -> (r: Expr)
    ensures
        r@ == e@,
    decreases e,
{
    match e {
        Expr::Number(n) => Expr::Number(*n),
        Expr::Variable(v) => Expr::Variable(v.clone()),
        Expr::BinaryOp { left, op, right } => Expr::BinaryOp {
            left: Box::new(clone_expr(left)),
            op: op.clone(),
            right: Box::new(clone_expr(right)),
        },
        Expr::Call { name, args } => Expr::Call { name: name.clone(), args: clone_exprs(args) },
    }
}

impl Clone for Expr {
    fn clone(&self) -> (r: Self)
        ensures
            r@ == self@,
    {
        clone_expr(self)
    }
}

/// A copy of each statement of `ss`.
fn clone_stmts(ss: &Vec<Statement>) -> (r: Vec<Statement>)
    ensures
        stmts_view(r@) == stmts_view(ss@),
    decreases ss@,
{
    let mut v: Vec<Statement> = Vec::new();
    let mut j: usize = 0;
    while j < ss.len()
        invariant
            j <= ss@.len(),
            v@.len() == j,
            forall|k: int| 0 <= k < j ==> (#[trigger] v@[k])@ == ss@[k]@,
        decreases ss@.len() - j,
    {
        assert(decreases_to!(ss@ => ss@[j as int]));
        v.push(clone_stmt(&ss[j]));
        j = j + 1;
    }
    proof {
        lemma_stmts_view(v@);
        lemma_stmts_view(ss@);
    }
    assert(stmts_view(v@) =~= stmts_view(ss@));
    v
}

/// A copy of `s`.
fn clone_stmt(s: &Statement) -> (r: Statement)
    ensures
        r@ == s@,
    decreases s,
{
    match s {
        Statement::Let { name, value } => Statement::Let {
            name: name.clone(),
            value: clone_expr(value),
        },
        Statement::Assign { name, value } => Statement::Assign {
            name: name.clone(),
            value: clone_expr(value),
        },
        Statement::Expression(e) => Statement::Expression(clone_expr(e)),
        Statement::Function { name, body } => Statement::Function {
            name: name.clone(),
            body: clone_stmts(body),
        },
        Statement::If { condition, then_branch, else_branch } => Statement::If {
            condition: clone_expr(condition),
            then_branch: clone_stmts(then_branch),
            else_branch: match else_branch {
                Some(eb) => Some(clone_stmts(eb)),
                None => None,
            },
        },
        Statement::While { condition, body } => Statement::While {
            condition: clone_expr(condition),
            body: clone_stmts(body),
        },
    }
}

impl Clone for Statement {
    fn clone(&self) -> (r: Self)
        ensures
            r@ == self@,
    {
        clone_stmt(self)
    }
}

/// One instruction of the linear, stack-based log representation.
#[derive(Debug, Clone, PartialEq)]
pub enum LogIR {
    Push(i32),
    Load(String),
    Store(String),
    Add,
    Sub,
    Less,
    Equal,
    NotEqual,
    LessEqual,
    GreaterEqual,
    Greater,
    Call(String),
    LoadByte,
    StoreByte,
    IfStart,
    ElseStart,
    WhileStart,
    LoopEnd,
}

/// The mathematical value of a [`LogIR`] instruction.
pub enum LogIRV {
    Push(i32),
    Load(Seq<char>),
    Store(Seq<char>),
    Add,
    Sub,
    Less,
    Equal,
    NotEqual,
    LessEqual,
    GreaterEqual,
    Greater,
    Call(Seq<char>),
    LoadByte,
    StoreByte,
    IfStart,
    ElseStart,
    WhileStart,
    LoopEnd,
}

pub open spec fn log_ir_view(i: LogIR) -> LogIRV {
    match i {
        LogIR::Push(n) => LogIRV::Push(n),
        LogIR::Load(s) => LogIRV::Load(s@),
        LogIR::Store(s) => LogIRV::Store(s@),
        LogIR::Add => LogIRV::Add,
        LogIR::Sub => LogIRV::Sub,
        LogIR::Less => LogIRV::Less,
        LogIR::Equal => LogIRV::Equal,
        LogIR::NotEqual => LogIRV::NotEqual,
        LogIR::LessEqual => LogIRV::LessEqual,
        LogIR::GreaterEqual => LogIRV::GreaterEqual,
        LogIR::Greater => LogIRV::Greater,
        LogIR::Call(s) => LogIRV::Call(s@),
        LogIR::LoadByte => LogIRV::LoadByte,
        LogIR::StoreByte => LogIRV::StoreByte,
        LogIR::IfStart => LogIRV::IfStart,
        LogIR::ElseStart => LogIRV::ElseStart,
        LogIR::WhileStart => LogIRV::WhileStart,
        LogIR::LoopEnd => LogIRV::LoopEnd,
    }
}

impl View for LogIR {
    type V = LogIRV;

    open spec fn view(&self) -> LogIRV {
        log_ir_view(*self)
    }
}

/// The views of a sequence of IR instructions.
pub open spec fn log_irs_view(s: Seq<LogIR>) -> Seq<LogIRV> {
    s.map_values(|i: LogIR| i@)
}

} // verus!
