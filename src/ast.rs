use vstd::prelude::*;
use crate::token::{Literal, Token, copy_literal};

verus! {

/// An expression. Each node owns its sub-expressions.
#[derive(PartialEq, Debug)]
pub enum Expr {
    Binary(Box<Expr>, Token, Box<Expr>),
    Unary(Token, Box<Expr>),
    Grouping(Box<Expr>),
    Constant(Literal),
    Variable(Token),
    Assign(Token, Box<Expr>),
    AugAssign { name: Token, operator: Token, value: Box<Expr> },
    Prefix { operator: Token, name: Token },
    Logical(Box<Expr>, Token, Box<Expr>),
    Call(Box<Expr>, Token, Vec<Expr>),
}

/// A statement.
#[derive(PartialEq, Debug)]
pub enum Stmt {
    Function { name: Token, params: Vec<Token>, body: Vec<Stmt> },
    Return(Option<Expr>),
    Delete(Vec<Token>),
    While { test: Expr, body: Vec<Stmt> },
    If { test: Expr, body: Vec<Stmt>, or_else: Option<Vec<Stmt>> },
    Expr(Expr),
    Echo(Expr),
    Break,
    Continue,
}

/// The mathematical content of an `Expr`: lists are sequences.
pub enum ExprV {
    Binary(Box<ExprV>, Token, Box<ExprV>),
    Unary(Token, Box<ExprV>),
    Grouping(Box<ExprV>),
    Constant(Literal),
    Variable(Token),
    Assign(Token, Box<ExprV>),
    AugAssign { name: Token, operator: Token, value: Box<ExprV> },
    Prefix { operator: Token, name: Token },
    Logical(Box<ExprV>, Token, Box<ExprV>),
    Call(Box<ExprV>, Token, Seq<ExprV>),
}

/// The mathematical content of a `Stmt`.
pub enum StmtV {
    Function { name: Token, params: Seq<Token>, body: Seq<StmtV> },
    Return(Option<ExprV>),
    Delete(Seq<Token>),
    While { test: ExprV, body: Seq<StmtV> },
    If { test: ExprV, body: Seq<StmtV>, or_else: Option<Seq<StmtV>> },
    Expr(ExprV),
    Echo(ExprV),
    Break,
    Continue,
}

pub open spec fn expr_view(e: Expr) -> ExprV
    decreases e,
{
    match e {
        Expr::Binary(l, op, r) => ExprV::Binary(Box::new(expr_view(*l)), op, Box::new(expr_view(*r))),
        Expr::Unary(op, r) => ExprV::Unary(op, Box::new(expr_view(*r))),
        Expr::Grouping(x) => ExprV::Grouping(Box::new(expr_view(*x))),
        Expr::Constant(l) => ExprV::Constant(l),
        Expr::Variable(n) => ExprV::Variable(n),
        Expr::Assign(n, v) => ExprV::Assign(n, Box::new(expr_view(*v))),
        Expr::AugAssign { name, operator, value } => ExprV::AugAssign {
            name,
            operator,
            value: Box::new(expr_view(*value)),
        },
        Expr::Prefix { operator, name } => ExprV::Prefix { operator, name },
        Expr::Logical(l, op, r) => ExprV::Logical(Box::new(expr_view(*l)), op, Box::new(expr_view(*r))),
        Expr::Call(c, p, args) => ExprV::Call(Box::new(expr_view(*c)), p, exprs_view(args@)),
    }
}

pub open spec fn exprs_view(s: Seq<Expr>) -> Seq<ExprV>
    decreases s,
{
    if s.len() == 0 {
        Seq::empty()
    } else {
        exprs_view(s.subrange(0, s.len() - 1)).push(expr_view(s[s.len() - 1]))
    }
}

pub open spec fn stmt_view(st: Stmt) -> StmtV
    decreases st,
{
    match st {
        Stmt::Function { name, params, body } => StmtV::Function {
            name,
            params: params@,
            body: stmts_view(body@),
        },
        Stmt::Return(v) => StmtV::Return(
            match v {
                Some(e) => Some(expr_view(e)),
                None => None,
            },
        ),
        Stmt::Delete(names) => StmtV::Delete(names@),
        Stmt::While { test, body } => StmtV::While { test: expr_view(test), body: stmts_view(body@) },
        Stmt::If { test, body, or_else } => StmtV::If {
            test: expr_view(test),
            body: stmts_view(body@),
            or_else: match or_else {
                Some(b) => Some(stmts_view(b@)),
                None => None,
            },
        },
        Stmt::Expr(e) => StmtV::Expr(expr_view(e)),
        Stmt::Echo(e) => StmtV::Echo(expr_view(e)),
        Stmt::Break => StmtV::Break,
        Stmt::Continue => StmtV::Continue,
    }
}

pub open spec fn stmts_view(s: Seq<Stmt>) -> Seq<StmtV>
    decreases s,
{
    if s.len() == 0 {
        Seq::empty()
    } else {
        stmts_view(s.subrange(0, s.len() - 1)).push(stmt_view(s[s.len() - 1]))
    }
}

/// The number of nodes of an expression.
pub open spec fn expr_size(e: Expr) -> nat
    decreases e,
{
    match e {
        Expr::Binary(l, _, r) => 1 + expr_size(*l) + expr_size(*r),
        Expr::Unary(_, r) => 1 + expr_size(*r),
        Expr::Grouping(x) => 1 + expr_size(*x),
        Expr::Assign(_, v) => 1 + expr_size(*v),
        Expr::AugAssign { value, .. } => 1 + expr_size(*value),
        Expr::Logical(l, _, r) => 1 + expr_size(*l) + expr_size(*r),
        Expr::Call(c, _, args) => 1 + expr_size(*c) + exprs_size(args@),
        _ => 1,
    }
}

pub open spec fn exprs_size(s: Seq<Expr>) -> nat
    decreases s,
{
    if s.len() == 0 {
        0
    } else {
        exprs_size(s.subrange(0, s.len() - 1)) + expr_size(s[s.len() - 1])
    }
}

/// The number of nodes of a statement.
pub open spec fn stmt_size(st: Stmt) -> nat
    decreases st,
{
    match st {
        Stmt::Function { .. } => 1,
        Stmt::Return(v) => match v {
            Some(e) => 1 + expr_size(e),
            None => 1,
        },
        Stmt::While { test, body } => 1 + expr_size(test) + stmts_size(body@),
        Stmt::If { test, body, or_else } => 1 + expr_size(test) + stmts_size(body@) + match or_else {
            Some(b) => stmts_size(b@),
            None => 0,
        },
        Stmt::Expr(e) => 1 + expr_size(e),
        Stmt::Echo(e) => 1 + expr_size(e),
        _ => 1,
    }
}

pub open spec fn stmts_size(s: Seq<Stmt>) -> nat
    decreases s,
{
    if s.len() == 0 {
        0
    } else {
        stmts_size(s.subrange(0, s.len() - 1)) + stmt_size(s[s.len() - 1])
    }
}

pub proof fn lemma_exprs_size_elem(s: Seq<Expr>, i: int)
    requires
        0 <= i < s.len(),
    ensures
        exprs_size(s) >= expr_size(s[i]),
    decreases s.len(),
{
    if i < s.len() - 1 {
        lemma_exprs_size_elem(s.subrange(0, s.len() - 1), i);
    }
}

pub proof fn lemma_stmts_size_elem(s: Seq<Stmt>, i: int)
    requires
        0 <= i < s.len(),
    ensures
        stmts_size(s) >= stmt_size(s[i]),
    decreases s.len(),
{
    if i < s.len() - 1 {
        lemma_stmts_size_elem(s.subrange(0, s.len() - 1), i);
    }
}

impl View for Expr {
    type V = ExprV;

    open spec fn view(&self) -> ExprV {
        expr_view(*self)
    }
}

impl View for Stmt {
    type V = StmtV;

    open spec fn view(&self) -> StmtV {
        stmt_view(*self)
    }
}

pub proof fn lemma_exprs_view_push(s: Seq<Expr>, e: Expr)
    ensures
        exprs_view(s.push(e)) == exprs_view(s).push(expr_view(e)),
{
    assert(s.push(e).subrange(0, s.len() as int) =~= s);
}

pub proof fn lemma_stmts_view_push(s: Seq<Stmt>, st: Stmt)
    ensures
        stmts_view(s.push(st)) == stmts_view(s).push(stmt_view(st)),
{
    assert(s.push(st).subrange(0, s.len() as int) =~= s);
}

pub proof fn lemma_exprs_view_index(s: Seq<Expr>, i: int)
    requires
        0 <= i < s.len(),
    ensures
        exprs_view(s).len() == s.len(),
        exprs_view(s)[i] == expr_view(s[i]),
    decreases s.len(),
{
    lemma_exprs_view_len(s);
    if i < s.len() - 1 {
        lemma_exprs_view_index(s.subrange(0, s.len() - 1), i);
        assert(s.subrange(0, s.len() - 1)[i] == s[i]);
    }
}

pub proof fn lemma_stmts_view_len(s: Seq<Stmt>)
    ensures
        stmts_view(s).len() == s.len(),
    decreases s.len(),
{
    if s.len() > 0 {
        lemma_stmts_view_len(s.subrange(0, s.len() - 1));
    }
}

pub proof fn lemma_stmts_view_index(s: Seq<Stmt>, i: int)
    requires
        0 <= i < s.len(),
    ensures
        stmts_view(s).len() == s.len(),
        stmts_view(s)[i] == stmt_view(s[i]),
    decreases s.len(),
{
    lemma_stmts_view_len(s);
    if i < s.len() - 1 {
        lemma_stmts_view_index(s.subrange(0, s.len() - 1), i);
        assert(s.subrange(0, s.len() - 1)[i] == s[i]);
    }
}

pub proof fn lemma_exprs_view_len(s: Seq<Expr>)
    ensures
        exprs_view(s).len() == s.len(),
    decreases s.len(),
{
    if s.len() > 0 {
        lemma_exprs_view_len(s.subrange(0, s.len() - 1));
    }
}

/// Copies a list of tokens, keeping their content.
pub fn copy_tokens(v: &Vec<Token>) -> (r: Vec<Token>)
    ensures
        r@ == v@,
{
    let mut r: Vec<Token> = Vec::new();
    let mut i: usize = 0;
    while i < v.len()
        invariant
            i <= v@.len(),
            r@ == v@.subrange(0, i as int),
        decreases v@.len() - i,
    {
        r.push(v[i].copy());
        i += 1;
        assert(r@ =~= v@.subrange(0, i as int));
    }
    assert(v@.subrange(0, v@.len() as int) =~= v@);
    r
}

/// Copies a list of expressions, keeping their content.
pub fn copy_exprs(v: &Vec<Expr>) -> (r: Vec<Expr>)
    ensures
        exprs_view(r@) == exprs_view(v@),
    decreases v,
{
    let mut r: Vec<Expr> = Vec::new();
    let mut i: usize = 0;
    assert(v@.subrange(0, 0) =~= Seq::<Expr>::empty());
    while i < v.len()
        invariant
            i <= v@.len(),
            exprs_view(r@) == exprs_view(v@.subrange(0, i as int)),
        decreases v@.len() - i,
    {
        let e = copy_expr(&v[i]);
        proof {
            lemma_exprs_view_push(r@, e);
            lemma_exprs_view_push(v@.subrange(0, i as int), v@[i as int]);
            assert(v@.subrange(0, i as int).push(v@[i as int]) =~= v@.subrange(0, i + 1));
        }
        r.push(e);
        i += 1;
    }
    assert(v@.subrange(0, v@.len() as int) =~= v@);
    r
}

/// Copies an expression, keeping its content.
pub fn copy_expr(e: &Expr) -> (r: Expr)
    ensures
        r@ == e@,
    decreases e,
{
    match e {
        Expr::Binary(l, op, rhs) => Expr::Binary(Box::new(copy_expr(l)), op.copy(), Box::new(copy_expr(rhs))),
        Expr::Unary(op, rhs) => Expr::Unary(op.copy(), Box::new(copy_expr(rhs))),
        Expr::Grouping(x) => Expr::Grouping(Box::new(copy_expr(x))),
        Expr::Constant(l) => Expr::Constant(copy_literal(l)),
        Expr::Variable(n) => Expr::Variable(n.copy()),
        Expr::Assign(n, v) => Expr::Assign(n.copy(), Box::new(copy_expr(v))),
        Expr::AugAssign { name, operator, value } => Expr::AugAssign {
            name: name.copy(),
            operator: operator.copy(),
            value: Box::new(copy_expr(value)),
        },
        Expr::Prefix { operator, name } => Expr::Prefix { operator: operator.copy(), name: name.copy() },
        Expr::Logical(l, op, rhs) => Expr::Logical(Box::new(copy_expr(l)), op.copy(), Box::new(copy_expr(rhs))),
        Expr::Call(c, p, args) => Expr::Call(Box::new(copy_expr(c)), p.copy(), copy_exprs(args)),
    }
}

/// Copies a list of statements, keeping their content.
pub fn copy_stmts(v: &Vec<Stmt>) -> (r: Vec<Stmt>)
    ensures
        stmts_view(r@) == stmts_view(v@),
    decreases v,
{
    let mut r: Vec<Stmt> = Vec::new();
    let mut i: usize = 0;
    assert(v@.subrange(0, 0) =~= Seq::<Stmt>::empty());
    while i < v.len()
        invariant
            i <= v@.len(),
            stmts_view(r@) == stmts_view(v@.subrange(0, i as int)),
        decreases v@.len() - i,
    {
        let st = copy_stmt(&v[i]);
        proof {
            lemma_stmts_view_push(r@, st);
            lemma_stmts_view_push(v@.subrange(0, i as int), v@[i as int]);
            assert(v@.subrange(0, i as int).push(v@[i as int]) =~= v@.subrange(0, i + 1));
        }
        r.push(st);
        i += 1;
    }
    assert(v@.subrange(0, v@.len() as int) =~= v@);
    r
}

/// Copies a statement, keeping its content.
pub fn copy_stmt(st: &Stmt) -> (r: Stmt)
    ensures
        r@ == st@,
    decreases st,
{
    match st {
        Stmt::Function { name, params, body } => Stmt::Function {
            name: name.copy(),
            params: copy_tokens(params),
            body: copy_stmts(body),
        },
        Stmt::Return(v) => Stmt::Return(
            match v {
                Some(e) => Some(copy_expr(e)),
                None => None,
            },
        ),
        Stmt::Delete(names) => Stmt::Delete(copy_tokens(names)),
        Stmt::While { test, body } => Stmt::While { test: copy_expr(test), body: copy_stmts(body) },
        Stmt::If { test, body, or_else } => Stmt::If {
            test: copy_expr(test),
            body: copy_stmts(body),
            or_else: match or_else {
                Some(b) => Some(copy_stmts(b)),
                None => None,
            },
        },
        Stmt::Expr(e) => Stmt::Expr(copy_expr(e)),
        Stmt::Echo(e) => Stmt::Echo(copy_expr(e)),
        Stmt::Break => Stmt::Break,
        Stmt::Continue => Stmt::Continue,
    }
}

} // verus!
