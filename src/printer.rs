use vstd::prelude::*;
use crate::ast::{Expr, ExprV, exprs_view};
use crate::number::number_text;
use crate::token::Literal;

verus! {

/// How a constant is printed.
pub open spec fn literal_text(l: Literal) -> Seq<char> {
    match l {
        Literal::Number(n) => number_text(n.raw as int),
        Literal::String(s) => s@,
        Literal::Bool(b) => if b {
            "true"@
        } else {
            "false"@
        },
        Literal::Null => "null"@,
    }
}

/// `(name part...)`, each part after a space.
pub open spec fn parens(name: Seq<char>, parts: Seq<char>) -> Seq<char> {
    "("@ + name + parts + ")"@
}

/// An expression as a parenthesized prefix form: `(+ 1 (* 2 3))`.
pub open spec fn sexpr(e: ExprV) -> Seq<char>
    decreases e,
{
    match e {
        ExprV::Binary(l, op, r) => parens(op.lexeme@, " "@ + sexpr(*l) + " "@ + sexpr(*r)),
        ExprV::Logical(l, op, r) => parens(op.lexeme@, " "@ + sexpr(*l) + " "@ + sexpr(*r)),
        ExprV::Unary(op, r) => parens(op.lexeme@, " "@ + sexpr(*r)),
        ExprV::Grouping(x) => parens("group"@, " "@ + sexpr(*x)),
        ExprV::Constant(l) => literal_text(l),
        ExprV::Variable(n) => n.lexeme@,
        ExprV::Assign(n, v) => parens("="@, " "@ + n.lexeme@ + " "@ + sexpr(*v)),
        ExprV::AugAssign { name, operator, value } => parens(
            operator.lexeme@,
            " "@ + name.lexeme@ + " "@ + sexpr(*value),
        ),
        ExprV::Prefix { operator, name } => parens(operator.lexeme@, " "@ + name.lexeme@),
        ExprV::Call(c, _, args) => parens("call"@, " "@ + sexpr(*c) + sexprs(args)),
    }
}

/// Each expression after a space.
pub open spec fn sexprs(s: Seq<ExprV>) -> Seq<char>
    decreases s,
{
    if s.len() == 0 {
        Seq::empty()
    } else {
        sexprs(s.subrange(0, s.len() - 1)) + " "@ + sexpr(s[s.len() - 1])
    }
}

fn literal_string(l: &Literal) -> (r: String)
    ensures
        r@ == literal_text(*l),
{
    match l {
        Literal::Number(n) => n.to_text(),
        Literal::String(s) => s.clone(),
        Literal::Bool(b) => if *b {
            "true".to_owned()
        } else {
            "false".to_owned()
        },
        Literal::Null => "null".to_owned(),
    }
}

fn wrap(name: &str, parts: String) -> (r: String)
    ensures
        r@ == parens(name@, parts@),
{
    let r = "(".to_owned().concat(name).concat(parts.as_str()).concat(")");
    assert(r@ =~= parens(name@, parts@));
    r
}

fn spaced(a: &str, b: &str) -> (r: String)
    ensures
        r@ == " "@ + a@ + " "@ + b@,
{
    let r = " ".to_owned().concat(a).concat(" ").concat(b);
    assert(r@ =~= " "@ + a@ + " "@ + b@);
    r
}

fn print_expr(e: &Expr) -> (r: String)
    ensures
        r@ == sexpr(e@),
    decreases e,
{
    match e {
        Expr::Binary(l, op, rhs) => {
            let a = print_expr(l);
            let b = print_expr(rhs);
            wrap(op.lexeme.as_str(), spaced(a.as_str(), b.as_str()))
        },
        Expr::Logical(l, op, rhs) => {
            let a = print_expr(l);
            let b = print_expr(rhs);
            wrap(op.lexeme.as_str(), spaced(a.as_str(), b.as_str()))
        },
        Expr::Unary(op, rhs) => {
            let a = print_expr(rhs);
            wrap(op.lexeme.as_str(), " ".to_owned().concat(a.as_str()))
        },
        Expr::Grouping(x) => {
            let a = print_expr(x);
            wrap("group", " ".to_owned().concat(a.as_str()))
        },
        Expr::Constant(l) => literal_string(l),
        Expr::Variable(n) => n.lexeme.clone(),
        Expr::Assign(n, v) => {
            let a = print_expr(v);
            wrap("=", spaced(n.lexeme.as_str(), a.as_str()))
        },
        Expr::AugAssign { name, operator, value } => {
            let a = print_expr(value);
            wrap(operator.lexeme.as_str(), spaced(name.lexeme.as_str(), a.as_str()))
        },
        Expr::Prefix { operator, name } => wrap(operator.lexeme.as_str(), " ".to_owned().concat(name.lexeme.as_str())),
        Expr::Call(c, _, args) => {
            let a = print_expr(c);
            let rest = print_all(args);
            wrap("call", " ".to_owned().concat(a.as_str()).concat(rest.as_str()))
        },
    }
}

fn print_all(v: &Vec<Expr>) -> (r: String)
    ensures
        r@ == sexprs(exprs_view(v@)),
    decreases v,
{
    let mut r = String::new();
    let mut i: usize = 0;
    assert(v@.subrange(0, 0) =~= Seq::<Expr>::empty());
    while i < v.len()
        invariant
            i <= v@.len(),
            r@ == sexprs(exprs_view(v@.subrange(0, i as int))),
        decreases v@.len() - i,
    {
        let a = print_expr(&v[i]);
        proof {
            crate::ast::lemma_exprs_view_push(v@.subrange(0, i as int), v@[i as int]);
            assert(v@.subrange(0, i as int).push(v@[i as int]) =~= v@.subrange(0, i + 1));
            let s = exprs_view(v@.subrange(0, i + 1));
            assert(s.subrange(0, s.len() - 1) =~= exprs_view(v@.subrange(0, i as int)));
        }
        r = r.concat(" ").concat(a.as_str());
        proof {
            let s = exprs_view(v@.subrange(0, i + 1));
            assert(r@ =~= sexprs(s));
        }
        i += 1;
    }
    assert(v@.subrange(0, v@.len() as int) =~= v@);
    r
}

/// Prints expressions in a parenthesized prefix form.
pub struct AstPrinter;

impl AstPrinter {
    /// The prefix form of an expression: `1 + 2 * 3` gives `(+ 1 (* 2 3))`.
    pub fn print_ast(&self, expr: Expr) -> (r: String)
        ensures
            r@ == sexpr(expr@),
    {
        print_expr(&expr)
    }
}

} // verus!
