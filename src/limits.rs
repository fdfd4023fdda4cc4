//! The cap on argument and parameter lists. Exceeding it is reported, but
//! does not stop parsing: the parse result stands, and these diagnostics
//! are gathered from it afterwards.
use vstd::prelude::*;
use crate::ast::{Expr, ExprV, Stmt, StmtV, exprs_view, lemma_exprs_view_push, lemma_stmts_view_push, stmts_view};
use crate::token::Token;

verus! {

/// The most arguments a call, or parameters a function, may have.
pub const MAX_ENTRIES: usize = 255;

/// The tokens to report in an expression, left to right: the closing
/// parenthesis of each call with more than 255 arguments.
pub open spec fn expr_limits(e: ExprV) -> Seq<Token>
    decreases e,
{
    match e {
        ExprV::Binary(l, _, r) => expr_limits(*l) + expr_limits(*r),
        ExprV::Logical(l, _, r) => expr_limits(*l) + expr_limits(*r),
        ExprV::Unary(_, r) => expr_limits(*r),
        ExprV::Grouping(x) => expr_limits(*x),
        ExprV::Assign(_, v) => expr_limits(*v),
        ExprV::AugAssign { value, .. } => expr_limits(*value),
        ExprV::Call(c, p, args) => expr_limits(*c) + exprs_limits(args) + if args.len() > 255 {
            seq![p]
        } else {
            Seq::empty()
        },
        _ => Seq::empty(),
    }
}

pub open spec fn exprs_limits(s: Seq<ExprV>) -> Seq<Token>
    decreases s,
{
    if s.len() == 0 {
        Seq::empty()
    } else {
        exprs_limits(s.subrange(0, s.len() - 1)) + expr_limits(s[s.len() - 1])
    }
}

/// The tokens to report in a statement, in source order: the name of each
/// function with more than 255 parameters, and the calls `expr_limits` finds.
pub open spec fn stmt_limits(st: StmtV) -> Seq<Token>
    decreases st,
{
    match st {
        StmtV::Function { name, params, body } => (if params.len() > 255 {
            seq![name]
        } else {
            Seq::empty()
        }) + stmts_limits(body),
        StmtV::Return(v) => match v {
            Some(e) => expr_limits(e),
            None => Seq::empty(),
        },
        StmtV::While { test, body } => expr_limits(test) + stmts_limits(body),
        StmtV::If { test, body, or_else } => expr_limits(test) + stmts_limits(body) + match or_else {
            Some(b) => stmts_limits(b),
            None => Seq::empty(),
        },
        StmtV::Expr(e) => expr_limits(e),
        StmtV::Echo(e) => expr_limits(e),
        _ => Seq::empty(),
    }
}

pub open spec fn stmts_limits(s: Seq<StmtV>) -> Seq<Token>
    decreases s,
{
    if s.len() == 0 {
        Seq::empty()
    } else {
        stmts_limits(s.subrange(0, s.len() - 1)) + stmt_limits(s[s.len() - 1])
    }
}

fn expr_over(e: &Expr, out: &mut Vec<Token>)
    ensures
        final(out)@ == old(out)@ + expr_limits(e@),
    decreases e,
{
    match e {
        Expr::Binary(l, _, r) => {
            expr_over(l, out);
            expr_over(r, out);
            assert(final(out)@ =~= old(out)@ + expr_limits(e@));
        },
        Expr::Logical(l, _, r) => {
            expr_over(l, out);
            expr_over(r, out);
            assert(final(out)@ =~= old(out)@ + expr_limits(e@));
        },
        Expr::Unary(_, r) => expr_over(r, out),
        Expr::Grouping(x) => expr_over(x, out),
        Expr::Assign(_, v) => expr_over(v, out),
        Expr::AugAssign { value, .. } => expr_over(value, out),
        Expr::Call(c, p, args) => {
            expr_over(c, out);
            exprs_over(args, out);
            if args.len() > MAX_ENTRIES {
                out.push(p.copy());
            }
            proof {
                crate::ast::lemma_exprs_view_len(args@);
            }
            assert(final(out)@ =~= old(out)@ + expr_limits(e@));
        },
        _ => {
            assert(final(out)@ =~= old(out)@ + expr_limits(e@));
        },
    }
}

fn exprs_over(v: &Vec<Expr>, out: &mut Vec<Token>)
    ensures
        final(out)@ == old(out)@ + exprs_limits(exprs_view(v@)),
    decreases v,
{
    let mut i: usize = 0;
    assert(exprs_view(v@.subrange(0, 0)) =~= Seq::<ExprV>::empty());
    assert(out@ =~= old(out)@ + exprs_limits(exprs_view(v@.subrange(0, 0))));
    while i < v.len()
        invariant
            i <= v@.len(),
            out@ == old(out)@ + exprs_limits(exprs_view(v@.subrange(0, i as int))),
        decreases v@.len() - i,
    {
        proof {
            lemma_exprs_view_push(v@.subrange(0, i as int), v@[i as int]);
            assert(v@.subrange(0, i as int).push(v@[i as int]) =~= v@.subrange(0, i + 1));
            let s = exprs_view(v@.subrange(0, i + 1));
            assert(s.subrange(0, s.len() - 1) =~= exprs_view(v@.subrange(0, i as int)));
        }
        let ghost before = out@;
        expr_over(&v[i], out);
        assert(out@ =~= old(out)@ + exprs_limits(exprs_view(v@.subrange(0, i + 1))));
        i += 1;
    }
    assert(v@.subrange(0, v@.len() as int) =~= v@);
}

fn stmt_over(st: &Stmt, out: &mut Vec<Token>)
    ensures
        final(out)@ == old(out)@ + stmt_limits(st@),
    decreases st,
{
    match st {
        Stmt::Function { name, params, body } => {
            if params.len() > MAX_ENTRIES {
                out.push(name.copy());
            }
            stmts_over(body, out);
            assert(final(out)@ =~= old(out)@ + stmt_limits(st@));
        },
        Stmt::Return(v) => match v {
            Some(e) => expr_over(e, out),
            None => {
                assert(final(out)@ =~= old(out)@ + stmt_limits(st@));
            },
        },
        Stmt::While { test, body } => {
            expr_over(test, out);
            stmts_over(body, out);
            assert(final(out)@ =~= old(out)@ + stmt_limits(st@));
        },
        Stmt::If { test, body, or_else } => {
            expr_over(test, out);
            stmts_over(body, out);
            match or_else {
                Some(b) => stmts_over(b, out),
                None => {},
            }
            assert(final(out)@ =~= old(out)@ + stmt_limits(st@));
        },
        Stmt::Expr(e) => expr_over(e, out),
        Stmt::Echo(e) => expr_over(e, out),
        _ => {
            assert(final(out)@ =~= old(out)@ + stmt_limits(st@));
        },
    }
}

fn stmts_over(v: &Vec<Stmt>, out: &mut Vec<Token>)
    ensures
        final(out)@ == old(out)@ + stmts_limits(stmts_view(v@)),
    decreases v,
{
    let mut i: usize = 0;
    assert(stmts_view(v@.subrange(0, 0)) =~= Seq::<StmtV>::empty());
    assert(out@ =~= old(out)@ + stmts_limits(stmts_view(v@.subrange(0, 0))));
    while i < v.len()
        invariant
            i <= v@.len(),
            out@ == old(out)@ + stmts_limits(stmts_view(v@.subrange(0, i as int))),
        decreases v@.len() - i,
    {
        proof {
            lemma_stmts_view_push(v@.subrange(0, i as int), v@[i as int]);
            assert(v@.subrange(0, i as int).push(v@[i as int]) =~= v@.subrange(0, i + 1));
            let s = stmts_view(v@.subrange(0, i + 1));
            assert(s.subrange(0, s.len() - 1) =~= stmts_view(v@.subrange(0, i as int)));
        }
        stmt_over(&v[i], out);
        assert(out@ =~= old(out)@ + stmts_limits(stmts_view(v@.subrange(0, i + 1))));
        i += 1;
    }
    assert(v@.subrange(0, v@.len() as int) =~= v@);
}

/// The tokens at which a parsed program exceeds the cap, in source order:
/// the name of a function with more than 255 parameters, the closing
/// parenthesis of a call with more than 255 arguments.
pub fn over_limit(statements: &Vec<Stmt>) -> (r: Vec<Token>)
    ensures
        r@ == stmts_limits(stmts_view(statements@)),
{
    let mut out: Vec<Token> = Vec::new();
    stmts_over(statements, &mut out);
    assert(out@ =~= stmts_limits(stmts_view(statements@)));
    out
}

} // verus!
