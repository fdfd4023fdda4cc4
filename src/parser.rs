use vstd::prelude::*;
use crate::ast::{
    Expr, Stmt, exprs_view, lemma_exprs_view_push, lemma_stmts_view_push, stmts_view,
};
use crate::ast::{ExprV, StmtV};
use crate::grammar::{
    PResult, ParseErrorV, args_tail, binary_tail, block_tail, call_tail, check,
    consume, expr_level, level_op, names_tail, primary, program, program_from, statement, suffix,
    terminated, block, function_stmt, while_stmt, if_stmt, well_formed,
};
use crate::token::{Literal, Token, TokenType, copy_literal};

verus! {

/// All possible error types in the parser.
#[derive(Clone, PartialEq, Debug)]
pub enum ParseError {
    ExpectedExpression(Token),
    TokenMismatch { expected: TokenType, found: Token, message: String },
    InvalidTarget(Token),
}

impl View for ParseError {
    type V = ParseErrorV;

    open spec fn view(&self) -> ParseErrorV {
        match self {
            ParseError::ExpectedExpression(t) => ParseErrorV::ExpectedExpression(*t),
            ParseError::TokenMismatch { expected, found, message } => ParseErrorV::TokenMismatch {
                expected: *expected,
                found: *found,
                message: message@,
            },
            ParseError::InvalidTarget(t) => ParseErrorV::InvalidTarget(*t),
        }
    }
}

pub open spec fn expr_match(r: Result<(Expr, usize), ParseError>, s: PResult<ExprV>) -> bool {
    match (r, s) {
        (Ok((e, p)), Ok((v, q))) => e@ == v && p == q,
        (Err(a), Err(b)) => a@ == b,
        _ => false,
    }
}

pub open spec fn exprs_match(r: Result<(Vec<Expr>, usize), ParseError>, s: PResult<Seq<ExprV>>) -> bool {
    match (r, s) {
        (Ok((e, p)), Ok((v, q))) => exprs_view(e@) == v && p == q,
        (Err(a), Err(b)) => a@ == b,
        _ => false,
    }
}

pub open spec fn stmt_match(r: Result<(Stmt, usize), ParseError>, s: PResult<StmtV>) -> bool {
    match (r, s) {
        (Ok((e, p)), Ok((v, q))) => e@ == v && p == q,
        (Err(a), Err(b)) => a@ == b,
        _ => false,
    }
}

pub open spec fn stmts_match(r: Result<(Vec<Stmt>, usize), ParseError>, s: PResult<Seq<StmtV>>) -> bool {
    match (r, s) {
        (Ok((e, p)), Ok((v, q))) => stmts_view(e@) == v && p == q,
        (Err(a), Err(b)) => a@ == b,
        _ => false,
    }
}

pub open spec fn names_match(r: Result<(Vec<Token>, usize), ParseError>, s: PResult<Seq<Token>>) -> bool {
    match (r, s) {
        (Ok((e, p)), Ok((v, q))) => e@ == v && p == q,
        (Err(a), Err(b)) => a@ == b,
        _ => false,
    }
}

pub open spec fn token_match(r: Result<(Token, usize), ParseError>, s: PResult<Token>) -> bool {
    match (r, s) {
        (Ok((e, p)), Ok((v, q))) => e == v && p == q,
        (Err(a), Err(b)) => a@ == b,
        _ => false,
    }
}

/// A successful parse from `p` ends at a later position inside the sequence.
pub open spec fn advances<T>(r: Result<(T, usize), ParseError>, p: int, len: int) -> bool {
    r matches Ok((_, q)) ==> p < q < len
}

fn at_end(t: &Vec<Token>, p: usize) -> (r: bool)
    requires
        p < t@.len(),
    ensures
        r == crate::grammar::at_end(t@, p as int),
{
    t[p].ty == TokenType::Eof
}

fn check_type(t: &Vec<Token>, p: usize, ty: TokenType) -> (r: bool)
    requires
        p < t@.len(),
    ensures
        r == check(t@, p as int, ty),
{
    !at_end(t, p) && t[p].ty == ty
}

proof fn lemma_not_last(t: Seq<Token>, p: int)
    requires
        well_formed(t),
        0 <= p < t.len(),
        !crate::grammar::at_end(t, p),
    ensures
        p + 1 < t.len(),
{
}

fn consume_type(t: &Vec<Token>, p: usize, ty: TokenType, message: &str) -> (r: Result<(Token, usize), ParseError>)
    requires
        well_formed(t@),
        t@.len() <= usize::MAX,
        p < t@.len(),
    ensures
        token_match(r, consume(t@, p as int, ty, message@)),
        advances(r, p as int, t@.len() as int),
{
    if check_type(t, p, ty) {
        Ok((t[p].copy(), p + 1))
    } else {
        Err(ParseError::TokenMismatch { expected: ty, found: t[p].copy(), message: message.to_owned() })
    }
}

fn level_op_exec(level: u8, ty: TokenType) -> (r: bool)
    ensures
        r == level_op(level as nat, ty),
{
    if level == 7 {
        ty == TokenType::DoubleVBar
    } else if level == 6 {
        ty == TokenType::DoubleAmper
    } else if level == 5 {
        ty == TokenType::BangEqual || ty == TokenType::EqEqual
    } else if level == 4 {
        ty == TokenType::Greater || ty == TokenType::GreaterEqual || ty == TokenType::Less
            || ty == TokenType::LessEqual
    } else if level == 3 {
        ty == TokenType::Minus || ty == TokenType::Plus
    } else if level == 2 {
        ty == TokenType::Percent || ty == TokenType::Slash || ty == TokenType::Star
    } else {
        false
    }
}

fn parse_primary(t: &Vec<Token>, p: usize) -> (r: Result<(Expr, usize), ParseError>)
    requires
        well_formed(t@),
        t@.len() <= usize::MAX,
        p < t@.len(),
    ensures
        expr_match(r, primary(t@, p as int)),
        advances(r, p as int, t@.len() as int),
    decreases t@.len() - p, 0nat,
{
    if check_type(t, p, TokenType::True) {
        Ok((Expr::Constant(Literal::Bool(true)), p + 1))
    } else if check_type(t, p, TokenType::False) {
        Ok((Expr::Constant(Literal::Bool(false)), p + 1))
    } else if check_type(t, p, TokenType::Null) {
        Ok((Expr::Constant(Literal::Null), p + 1))
    } else if check_type(t, p, TokenType::Number) && t[p].literal.is_some() && matches!(
        t[p].literal,
        Some(Literal::Number(_))
    ) {
        match &t[p].literal {
            Some(l) => Ok((Expr::Constant(copy_literal(l)), p + 1)),
            None => Err(ParseError::ExpectedExpression(t[p].copy())),
        }
    } else if check_type(t, p, TokenType::String) && matches!(t[p].literal, Some(Literal::String(_))) {
        match &t[p].literal {
            Some(l) => Ok((Expr::Constant(copy_literal(l)), p + 1)),
            None => Err(ParseError::ExpectedExpression(t[p].copy())),
        }
    } else if check_type(t, p, TokenType::LParen) {
        match parse_level(t, p + 1, 9) {
            Err(e) => Err(e),
            Ok((e, p1)) => match consume_type(t, p1, TokenType::RParen, "Expected ')' after expression") {
                Err(err) => Err(err),
                Ok((_, p2)) => Ok((Expr::Grouping(Box::new(e)), p2)),
            },
        }
    } else if check_type(t, p, TokenType::Ident) {
        Ok((Expr::Variable(t[p].copy()), p + 1))
    } else {
        Err(ParseError::ExpectedExpression(t[p].copy()))
    }
}

fn parse_args(t: &Vec<Token>, p: usize, acc: Vec<Expr>) -> (r: Result<(Vec<Expr>, usize), ParseError>)
    requires
        well_formed(t@),
        t@.len() <= usize::MAX,
        p < t@.len(),
    ensures
        exprs_match(r, args_tail(t@, p as int, exprs_view(acc@))),
        advances(r, p as int, t@.len() as int),
    decreases t@.len() - p, 22nat,
{
    match parse_level(t, p, 9) {
        Err(e) => Err(e),
        Ok((e, p1)) => {
            let mut acc = acc;
            let ghost before = acc@;
            proof {
                lemma_exprs_view_push(before, e);
            }
            acc.push(e);
            if check_type(t, p1, TokenType::Comma) {
                proof {
                    lemma_not_last(t@, p1 as int);
                }
                parse_args(t, p1 + 1, acc)
            } else {
                Ok((acc, p1))
            }
        },
    }
}

fn parse_calls(t: &Vec<Token>, p: usize, callee: Expr) -> (r: Result<(Expr, usize), ParseError>)
    requires
        well_formed(t@),
        t@.len() <= usize::MAX,
        p < t@.len(),
    ensures
        expr_match(r, call_tail(t@, p as int, callee@)),
        r matches Ok((_, q)) ==> p <= q < t@.len(),
    decreases t@.len() - p, 1nat,
{
    if check_type(t, p, TokenType::LParen) {
        proof {
            lemma_not_last(t@, p as int);
        }
        let args = if check_type(t, p + 1, TokenType::RParen) {
            let empty: Vec<Expr> = Vec::new();
            assert(exprs_view(empty@) =~= Seq::<ExprV>::empty());
            Ok((empty, p + 1))
        } else {
            let empty: Vec<Expr> = Vec::new();
            assert(exprs_view(empty@) =~= Seq::<ExprV>::empty());
            parse_args(t, p + 1, empty)
        };
        match args {
            Err(e) => Err(e),
            Ok((args, p1)) => match consume_type(t, p1, TokenType::RParen, "Expected ')' after arguments") {
                Err(e) => Err(e),
                Ok((paren, p2)) => parse_calls(t, p2, Expr::Call(Box::new(callee), paren, args)),
            },
        }
    } else {
        Ok((callee, p))
    }
}

fn parse_binary(t: &Vec<Token>, p: usize, lhs: Expr, level: u8) -> (r: Result<(Expr, usize), ParseError>)
    requires
        well_formed(t@),
        t@.len() <= usize::MAX,
        p < t@.len(),
        2 <= level <= 7,
    ensures
        expr_match(r, binary_tail(t@, p as int, lhs@, level as nat)),
        r matches Ok((_, q)) ==> p <= q < t@.len(),
    decreases t@.len() - p, 2 * level + 2,
{
    if !at_end(t, p) && level_op_exec(level, t[p].ty) {
        proof {
            lemma_not_last(t@, p as int);
        }
        match parse_level(t, p + 1, level - 1) {
            Err(e) => Err(e),
            Ok((r, p1)) => {
                let op = t[p].copy();
                let e = if level == 7 || level == 6 {
                    Expr::Logical(Box::new(lhs), op, Box::new(r))
                } else {
                    Expr::Binary(Box::new(lhs), op, Box::new(r))
                };
                parse_binary(t, p1, e, level)
            },
        }
    } else {
        Ok((lhs, p))
    }
}

/// Parses an expression at a binding level (see `grammar`).
fn parse_level(t: &Vec<Token>, p: usize, level: u8) -> (r: Result<(Expr, usize), ParseError>)
    requires
        well_formed(t@),
        t@.len() <= usize::MAX,
        p < t@.len(),
        level <= 9,
    ensures
        expr_match(r, expr_level(t@, p as int, level as nat)),
        advances(r, p as int, t@.len() as int),
    decreases t@.len() - p, 2 * level + 3,
{
    if level == 9 {
        match parse_level(t, p, 8) {
            Err(e) => Err(e),
            Ok((lhs, p1)) => if check_type(t, p1, TokenType::Equal) {
                proof {
                    lemma_not_last(t@, p1 as int);
                }
                match parse_level(t, p1 + 1, 9) {
                    Err(e) => Err(e),
                    Ok((value, p2)) => match lhs {
                        Expr::Variable(name) => Ok((Expr::Assign(name, Box::new(value)), p2)),
                        _ => Err(ParseError::InvalidTarget(t[p1].copy())),
                    },
                }
            } else {
                Ok((lhs, p1))
            },
        }
    } else if level == 8 {
        match parse_level(t, p, 7) {
            Err(e) => Err(e),
            Ok((lhs, p1)) => {
                let ty = t[p1].ty;
                if !at_end(t, p1) && (ty == TokenType::MinusEqual || ty == TokenType::PlusEqual
                    || ty == TokenType::PercentEqual || ty == TokenType::SlashEqual || ty
                    == TokenType::StarEqual) {
                    proof {
                        lemma_not_last(t@, p1 as int);
                    }
                    match parse_level(t, p1 + 1, 7) {
                        Err(e) => Err(e),
                        Ok((value, p2)) => match lhs {
                            Expr::Variable(name) => Ok(
                                (Expr::AugAssign { name, operator: t[p1].copy(), value: Box::new(value) }, p2),
                            ),
                            _ => Err(ParseError::InvalidTarget(t[p1].copy())),
                        },
                    }
                } else {
                    Ok((lhs, p1))
                }
            },
        }
    } else if level >= 2 {
        match parse_level(t, p, level - 1) {
            Err(e) => Err(e),
            Ok((lhs, p1)) => parse_binary(t, p1, lhs, level),
        }
    } else if level == 1 {
        let ty = t[p].ty;
        if !at_end(t, p) && (ty == TokenType::Bang || ty == TokenType::Minus || ty == TokenType::Plus) {
            proof {
                lemma_not_last(t@, p as int);
            }
            match parse_level(t, p + 1, 1) {
                Err(e) => Err(e),
                Ok((r, p1)) => Ok((Expr::Unary(t[p].copy(), Box::new(r)), p1)),
            }
        } else if !at_end(t, p) && (ty == TokenType::DoubleMinus || ty == TokenType::DoublePlus) {
            proof {
                lemma_not_last(t@, p as int);
            }
            match parse_level(t, p + 1, 0) {
                Err(e) => Err(e),
                Ok((e, p1)) => match e {
                    Expr::Variable(name) => Ok((Expr::Prefix { operator: t[p].copy(), name }, p1)),
                    _ => Err(ParseError::InvalidTarget(t[p].copy())),
                },
            }
        } else {
            parse_level(t, p, 0)
        }
    } else {
        let s = match parse_primary(t, p) {
            Err(e) => Err(e),
            Ok((e, p1)) => {
                let ty = t[p1].ty;
                if !at_end(t, p1) && (ty == TokenType::DoubleMinus || ty == TokenType::DoublePlus) {
                    proof {
                        lemma_not_last(t@, p1 as int);
                    }
                    match e {
                        Expr::Variable(name) => Ok((Expr::Prefix { operator: t[p1].copy(), name }, p1 + 1)),
                        _ => Err(ParseError::InvalidTarget(t[p1].copy())),
                    }
                } else {
                    Ok((e, p1))
                }
            },
        };
        assert(expr_match(s, suffix(t@, p as int)));
        match s {
            Err(e) => Err(e),
            Ok((e, p1)) => parse_calls(t, p1, e),
        }
    }
}

fn parse_names(t: &Vec<Token>, p: usize, acc: Vec<Token>, message: &str) -> (r: Result<(Vec<Token>, usize), ParseError>)
    requires
        well_formed(t@),
        t@.len() <= usize::MAX,
        p < t@.len(),
    ensures
        names_match(r, names_tail(t@, p as int, acc@, message@)),
        advances(r, p as int, t@.len() as int),
    decreases t@.len() - p,
{
    match consume_type(t, p, TokenType::Ident, message) {
        Err(e) => Err(e),
        Ok((name, p1)) => {
            let mut acc = acc;
            acc.push(name);
            if check_type(t, p1, TokenType::Comma) {
                parse_names(t, p1 + 1, acc, message)
            } else {
                Ok((acc, p1))
            }
        },
    }
}

fn parse_terminated(t: &Vec<Token>, p: usize, message: &str) -> (r: Result<(Expr, usize), ParseError>)
    requires
        well_formed(t@),
        t@.len() <= usize::MAX,
        p < t@.len(),
    ensures
        expr_match(r, terminated(t@, p as int, message@)),
        advances(r, p as int, t@.len() as int),
    decreases t@.len() - p, 22nat,
{
    match parse_level(t, p, 9) {
        Err(e) => Err(e),
        Ok((e, p1)) => match consume_type(t, p1, TokenType::Semicolon, message) {
            Err(err) => Err(err),
            Ok((_, p2)) => Ok((e, p2)),
        },
    }
}

fn parse_block(t: &Vec<Token>, p: usize) -> (r: Result<(Vec<Stmt>, usize), ParseError>)
    requires
        well_formed(t@),
        t@.len() <= usize::MAX,
        p < t@.len(),
    ensures
        stmts_match(r, block(t@, p as int)),
        advances(r, p as int, t@.len() as int),
    decreases t@.len() - p, 25nat,
{
    let q0 = match consume_type(t, p, TokenType::LBrace, "Expected '{' before block") {
        Err(e) => {
            return Err(e);
        },
        Ok((_, q)) => q,
    };
    let ghost target = block_tail(t@, q0 as int, Seq::empty());
    let mut acc: Vec<Stmt> = Vec::new();
    let mut q = q0;
    assert(stmts_view(acc@) =~= Seq::<StmtV>::empty());
    while !check_type(t, q, TokenType::RBrace) && !at_end(t, q)
        invariant
            well_formed(t@),
            t@.len() <= usize::MAX,
            p < q0 <= q < t@.len(),
            block(t@, p as int) == target,
            block_tail(t@, q as int, stmts_view(acc@)) == target,
        decreases t@.len() - q,
    {
        match parse_statement(t, q) {
            Err(e) => {
                return Err(e);
            },
            Ok((st, q1)) => {
                proof {
                    lemma_stmts_view_push(acc@, st);
                }
                acc.push(st);
                q = q1;
            },
        }
    }
    match consume_type(t, q, TokenType::RBrace, "Expected '}' after block") {
        Err(e) => Err(e),
        Ok((_, q1)) => Ok((acc, q1)),
    }
}

fn parse_function(t: &Vec<Token>, p: usize) -> (r: Result<(Stmt, usize), ParseError>)
    requires
        well_formed(t@),
        t@.len() <= usize::MAX,
        p < t@.len(),
    ensures
        stmt_match(r, function_stmt(t@, p as int)),
        advances(r, p as int, t@.len() as int),
    decreases t@.len() - p, 29nat,
{
    let (name, p1) = match consume_type(t, p, TokenType::Ident, "Expected function name") {
        Err(e) => {
            return Err(e);
        },
        Ok(x) => x,
    };
    let p2 = match consume_type(t, p1, TokenType::LParen, "Expected '(' after function name") {
        Err(e) => {
            return Err(e);
        },
        Ok((_, q)) => q,
    };
    let params = if check_type(t, p2, TokenType::RParen) {
        Ok((Vec::new(), p2))
    } else {
        parse_names(t, p2, Vec::new(), "Expected parameter name")
    };
    let (params, p3) = match params {
        Err(e) => {
            return Err(e);
        },
        Ok(x) => x,
    };
    let p4 = match consume_type(t, p3, TokenType::RParen, "Expected ')' after parameters") {
        Err(e) => {
            return Err(e);
        },
        Ok((_, q)) => q,
    };
    match parse_block(t, p4) {
        Err(e) => Err(e),
        Ok((body, p5)) => Ok((Stmt::Function { name, params, body }, p5)),
    }
}

fn parse_while(t: &Vec<Token>, p: usize) -> (r: Result<(Stmt, usize), ParseError>)
    requires
        well_formed(t@),
        t@.len() <= usize::MAX,
        p < t@.len(),
    ensures
        stmt_match(r, while_stmt(t@, p as int)),
        advances(r, p as int, t@.len() as int),
    decreases t@.len() - p, 27nat,
{
    match parse_level(t, p, 9) {
        Err(e) => Err(e),
        Ok((test, p1)) => match parse_block(t, p1) {
            Err(e) => Err(e),
            Ok((body, p2)) => Ok((Stmt::While { test, body }, p2)),
        },
    }
}

fn parse_if(t: &Vec<Token>, p: usize) -> (r: Result<(Stmt, usize), ParseError>)
    requires
        well_formed(t@),
        t@.len() <= usize::MAX,
        p < t@.len(),
    ensures
        stmt_match(r, if_stmt(t@, p as int)),
        advances(r, p as int, t@.len() as int),
    decreases t@.len() - p, 27nat,
{
    match parse_level(t, p, 9) {
        Err(e) => Err(e),
        Ok((test, p1)) => match parse_block(t, p1) {
            Err(e) => Err(e),
            Ok((body, p2)) => if check_type(t, p2, TokenType::Else) {
                match parse_block(t, p2 + 1) {
                    Err(e) => Err(e),
                    Ok((or_else, p3)) => Ok((Stmt::If { test, body, or_else: Some(or_else) }, p3)),
                }
            } else {
                Ok((Stmt::If { test, body, or_else: None }, p2))
            },
        },
    }
}

fn parse_statement(t: &Vec<Token>, p: usize) -> (r: Result<(Stmt, usize), ParseError>)
    requires
        well_formed(t@),
        t@.len() <= usize::MAX,
        p < t@.len(),
    ensures
        stmt_match(r, statement(t@, p as int)),
        advances(r, p as int, t@.len() as int),
    decreases t@.len() - p, 30nat,
{
    if check_type(t, p, TokenType::Func) {
        parse_function(t, p + 1)
    } else if check_type(t, p, TokenType::Return) {
        if check_type(t, p + 1, TokenType::Semicolon) {
            Ok((Stmt::Return(None), p + 2))
        } else {
            match parse_terminated(t, p + 1, "Expected ';' after return value") {
                Err(e) => Err(e),
                Ok((e, p1)) => Ok((Stmt::Return(Some(e)), p1)),
            }
        }
    } else if check_type(t, p, TokenType::Delete) {
        match parse_names(t, p + 1, Vec::new(), "Expected variable name") {
            Err(e) => Err(e),
            Ok((names, p1)) => match consume_type(t, p1, TokenType::Semicolon, "Expected ';' after del statement") {
                Err(e) => Err(e),
                Ok((_, p2)) => Ok((Stmt::Delete(names), p2)),
            },
        }
    } else if check_type(t, p, TokenType::While) {
        parse_while(t, p + 1)
    } else if check_type(t, p, TokenType::If) {
        parse_if(t, p + 1)
    } else if check_type(t, p, TokenType::Echo) {
        match parse_terminated(t, p + 1, "Expected ';' after value") {
            Err(e) => Err(e),
            Ok((e, p1)) => Ok((Stmt::Echo(e), p1)),
        }
    } else if check_type(t, p, TokenType::Break) {
        match consume_type(t, p + 1, TokenType::Semicolon, "Expected ';' after 'break'") {
            Err(e) => Err(e),
            Ok((_, p1)) => Ok((Stmt::Break, p1)),
        }
    } else if check_type(t, p, TokenType::Continue) {
        match consume_type(t, p + 1, TokenType::Semicolon, "Expected ';' after 'continue'") {
            Err(e) => Err(e),
            Ok((_, p1)) => Ok((Stmt::Continue, p1)),
        }
    } else {
        match parse_terminated(t, p, "Expected ';' after expression") {
            Err(e) => Err(e),
            Ok((e, p1)) => Ok((Stmt::Expr(e), p1)),
        }
    }
}

pub open spec fn program_match(r: Result<Vec<Stmt>, ParseError>, s: Result<Seq<StmtV>, ParseErrorV>) -> bool {
    match (r, s) {
        (Ok(v), Ok(w)) => stmts_view(v@) == w,
        (Err(a), Err(b)) => a@ == b,
        _ => false,
    }
}

/// Parses a whole token sequence into its statements, in order.
pub fn parse(tokens: &Vec<Token>) -> (r: Result<Vec<Stmt>, ParseError>)
    requires
        well_formed(tokens@),
        tokens@.len() <= usize::MAX,
    ensures
        program_match(r, program(tokens@)),
{
    let mut acc: Vec<Stmt> = Vec::new();
    let mut q: usize = 0;
    assert(stmts_view(acc@) =~= Seq::<StmtV>::empty());
    while !at_end(tokens, q)
        invariant
            well_formed(tokens@),
            tokens@.len() <= usize::MAX,
            q < tokens@.len(),
            program_from(tokens@, q as int, stmts_view(acc@)) == program(tokens@),
        decreases tokens@.len() - q,
    {
        match parse_statement(tokens, q) {
            Err(e) => {
                return Err(e);
            },
            Ok((st, q1)) => {
                proof {
                    lemma_stmts_view_push(acc@, st);
                }
                acc.push(st);
                q = q1;
            },
        }
    }
    Ok(acc)
}

/// A parser over one token sequence.
pub struct Parser {
    pub tokens: Vec<Token>,
}

impl Parser {
    pub open spec fn tokens(&self) -> Seq<Token> {
        self.tokens@
    }

    /// Creates a new `Parser` over the tokens that `scan_tokens` produced.
    pub fn new(tokens: Vec<Token>) -> (r: Parser)
        ensures
            r.tokens() == tokens@,
    {
        Parser { tokens }
    }

    /// Parses the statements of the whole token sequence.
    pub fn parse(&self) -> (r: Result<Vec<Stmt>, ParseError>)
        requires
            well_formed(self.tokens()),
            self.tokens().len() <= usize::MAX,
        ensures
            program_match(r, program(self.tokens())),
    {
        parse(&self.tokens)
    }
}

/// Parsing is deterministic: two parses of one token sequence give
/// structurally identical statements, or the same error.
pub proof fn lemma_parse_deterministic(
    t: Seq<Token>,
    r1: Result<Vec<Stmt>, ParseError>,
    r2: Result<Vec<Stmt>, ParseError>,
)
    requires
        program_match(r1, program(t)),
        program_match(r2, program(t)),
    ensures
        match (r1, r2) {
            (Ok(a), Ok(b)) => stmts_view(a@) == stmts_view(b@),
            (Err(a), Err(b)) => a@ == b@,
            _ => false,
        },
{
}

} // verus!
