//! The meaning of a program, as spec functions over views: what running a
//! statement or evaluating an expression does to the scopes and the output,
//! and what it gives back. Calls are bounded by the same call depth as the
//! evaluator and each `while` by the same iteration budget. A call of the
//! native `clock` reads the time, which no spec can name: from there on the
//! result is `None`, meaning "not stated".
use vstd::prelude::*;
use crate::ast::{ExprV, StmtV};
use crate::environment::{FrameV, binderv, empty_frame, lookupv, removev, setv, undefined};
use crate::token::{Token, TokenType};
use crate::value::{
    FunV, RuntimeError, ValueV, aug_base, binary_spec, literal_value, step_result, truthy,
    unary_result, value_text,
};

verus! {

/// The state of an interpreter: its frames, the bound below which frames
/// may be named by a function value, and the printed lines.
pub struct IState {
    pub frames: Seq<FrameV>,
    pub captured: nat,
    pub output: Seq<Seq<char>>,
}

/// How a statement finished.
pub enum SignalV {
    Normal,
    Return(ValueV),
    Break,
    Continue,
}

/// The state after a step and what the step gave, or `None` where the
/// step reads the clock.
pub type Outcome<T> = Option<(IState, Result<T, RuntimeError>)>;

pub open spec fn bind_name(s: IState, frame: nat, name: Seq<char>, v: ValueV) -> IState {
    IState { frames: setv(s.frames, frame as int, name, v), captured: s.captured, output: s.output }
}

/// Binds `params[k..]` to `vals[k..]` in frame `frame`, in order.
pub open spec fn bind_sem(s: IState, frame: nat, params: Seq<Token>, vals: Seq<ValueV>, k: nat) -> IState
    decreases params.len() - k,
{
    if k >= params.len() || k >= vals.len() {
        s
    } else {
        bind_sem(bind_name(s, frame, params[k as int].lexeme@, vals[k as int]), frame, params, vals, k + 1)
    }
}

pub open spec fn esize(e: ExprV) -> nat
    decreases e,
{
    match e {
        ExprV::Binary(l, _, r) => 1 + esize(*l) + esize(*r),
        ExprV::Logical(l, _, r) => 1 + esize(*l) + esize(*r),
        ExprV::Unary(_, r) => 1 + esize(*r),
        ExprV::Grouping(x) => 1 + esize(*x),
        ExprV::Assign(_, v) => 1 + esize(*v),
        ExprV::AugAssign { value, .. } => 1 + esize(*value),
        ExprV::Call(c, _, args) => 1 + esize(*c) + esizes(args),
        _ => 1,
    }
}

pub open spec fn esizes(s: Seq<ExprV>) -> nat
    decreases s,
{
    if s.len() == 0 {
        0
    } else {
        1 + esize(s[0]) + esizes(s.subrange(1, s.len() as int))
    }
}

pub open spec fn ssize(st: StmtV) -> nat
    decreases st,
{
    match st {
        StmtV::Return(v) => match v {
            Some(e) => 1 + esize(e),
            None => 1,
        },
        StmtV::While { test, body } => 2 + esize(test) + ssizes(body),
        StmtV::If { test, body, or_else } => 1 + esize(test) + ssizes(body) + match or_else {
            Some(b) => ssizes(b),
            None => 0,
        },
        StmtV::Expr(e) => 1 + esize(e),
        StmtV::Echo(e) => 1 + esize(e),
        _ => 1,
    }
}

pub open spec fn ssizes(s: Seq<StmtV>) -> nat
    decreases s,
{
    if s.len() == 0 {
        0
    } else {
        1 + ssize(s[0]) + ssizes(s.subrange(1, s.len() as int))
    }
}

/// Evaluating an expression in frame `frame` with `depth` calls left.
pub open spec fn expr_sem(s: IState, e: ExprV, frame: nat, depth: nat) -> Outcome<ValueV>
    decreases depth, esize(e), 0nat,
{
    match e {
        ExprV::Constant(l) => Some((s, Ok(literal_value(l)))),
        ExprV::Variable(n) => Some(
            (
                s,
                match lookupv(s.frames, frame as int, n.lexeme@) {
                    Some(v) => Ok(v),
                    None => Err(undefined(n)),
                },
            ),
        ),
        ExprV::Grouping(x) => expr_sem(s, *x, frame, depth),
        ExprV::Unary(op, x) => match expr_sem(s, *x, frame, depth) {
            Some((s1, Ok(v))) => Some((s1, unary_result(op, v))),
            other => other,
        },
        ExprV::Binary(l, op, r) => match expr_sem(s, *l, frame, depth) {
            Some((s1, Ok(a))) => match expr_sem(s1, *r, frame, depth) {
                Some((s2, Ok(b))) => Some((s2, binary_spec(op.ty, op, a, b))),
                other => other,
            },
            other => other,
        },
        ExprV::Logical(l, op, r) => match expr_sem(s, *l, frame, depth) {
            Some((s1, Ok(a))) => if (op.ty == TokenType::DoubleVBar) == truthy(a) {
                Some((s1, Ok(a)))
            } else {
                expr_sem(s1, *r, frame, depth)
            },
            other => other,
        },
        ExprV::Assign(name, x) => match expr_sem(s, *x, frame, depth) {
            Some((s1, Ok(v))) => Some((bind_name(s1, frame, name.lexeme@, v), Ok(v))),
            other => other,
        },
        ExprV::AugAssign { name, operator, value } => match lookupv(s.frames, frame as int, name.lexeme@) {
            None => Some((s, Err(undefined(name)))),
            Some(t) => match expr_sem(s, *value, frame, depth) {
                Some((s1, Ok(rv))) => match binary_spec(aug_base(operator.ty), operator, t, rv) {
                    Ok(v) => Some((bind_name(s1, frame, name.lexeme@, v), Ok(v))),
                    Err(err) => Some((s1, Err(err))),
                },
                other => other,
            },
        },
        ExprV::Prefix { operator, name } => match lookupv(s.frames, frame as int, name.lexeme@) {
            None => Some((s, Err(undefined(name)))),
            Some(t) => match step_result(operator, t) {
                Ok(v) => Some((bind_name(s, frame, name.lexeme@, v), Ok(v))),
                Err(err) => Some((s, Err(err))),
            },
        },
        ExprV::Call(c, paren, args) => match expr_sem(s, *c, frame, depth) {
            Some((s1, Ok(f))) => if !(f is NativeFunction || f is UserFunction) {
                Some((s1, Err(RuntimeError::NotCallable { line: paren.line })))
            } else {
                match args_sem(s1, args, frame, depth, Seq::empty()) {
                    Some((s2, Ok(vals))) => apply_sem(s2, f, vals, paren, depth),
                    Some((s2, Err(err))) => Some((s2, Err(err))),
                    None => None,
                }
            },
            other => other,
        },
    }
}

/// Applying a function value to evaluated arguments: their number must be
/// the function's arity; the native `clock` reads the time.
pub open spec fn apply_sem(s: IState, f: ValueV, vals: Seq<ValueV>, paren: Token, depth: nat) -> Outcome<ValueV>
    decreases depth, 0nat, 1nat,
{
    match f {
        ValueV::NativeFunction(nf) => if vals.len() != nf.arity {
            Some(
                (
                    s,
                    Err(RuntimeError::ArityMismatch { expected: nf.arity, actual: vals.len() as usize, line: paren.line }),
                ),
            )
        } else {
            None
        },
        ValueV::UserFunction(uf) => if vals.len() != uf.params.len() {
            Some(
                (
                    s,
                    Err(
                        RuntimeError::ArityMismatch {
                            expected: uf.params.len() as usize,
                            actual: vals.len() as usize,
                            line: paren.line,
                        },
                    ),
                ),
            )
        } else {
            call_sem(s, uf, vals, paren, depth)
        },
        _ => Some((s, Err(RuntimeError::NotCallable { line: paren.line }))),
    }
}

/// Evaluating arguments left to right, gathering their values onto `acc`.
pub open spec fn args_sem(s: IState, args: Seq<ExprV>, frame: nat, depth: nat, acc: Seq<ValueV>) -> Outcome<Seq<ValueV>>
    decreases depth, esizes(args), 0nat,
{
    if args.len() == 0 {
        Some((s, Ok(acc)))
    } else {
        match expr_sem(s, args[0], frame, depth) {
            Some((s1, Ok(v))) => args_sem(s1, args.subrange(1, args.len() as int), frame, depth, acc.push(v)),
            Some((s1, Err(err))) => Some((s1, Err(err))),
            None => None,
        }
    }
}

/// Calling a function of the language: a new frame chained to the
/// function's own frame, the parameters bound in order, the body run with
/// one call less; the value of `return`, else `null`. When no function
/// value was made during the call, its frames are released.
pub open spec fn call_sem(s: IState, uf: FunV, vals: Seq<ValueV>, paren: Token, depth: nat) -> Outcome<ValueV>
    decreases depth, 0nat, 0nat,
{
    if depth == 0 {
        Some((s, Err(RuntimeError::LimitReached { line: paren.line })))
    } else {
        let keep = s.frames.len();
        let s3 = IState { frames: s.frames.push(empty_frame(uf.closure)), captured: s.captured, output: s.output };
        let s4 = bind_sem(s3, keep, uf.params, vals, 0);
        match block_sem(s4, uf.body, keep, (depth - 1) as nat) {
            None => None,
            Some((s5, r)) => {
                let s6 = if s5.captured <= keep {
                    IState { frames: s5.frames.subrange(0, keep as int), captured: s5.captured, output: s5.output }
                } else {
                    s5
                };
                Some(
                    (
                        s6,
                        match r {
                            Err(err) => Err(err),
                            Ok(SignalV::Return(v)) => Ok(v),
                            Ok(_) => Ok(ValueV::Null),
                        },
                    ),
                )
            },
        }
    }
}

/// Running the statements of `rest` in order, up to the first that does not
/// finish normally.
pub open spec fn block_sem(s: IState, rest: Seq<StmtV>, frame: nat, depth: nat) -> Outcome<SignalV>
    decreases depth, ssizes(rest), 0nat,
{
    if rest.len() == 0 {
        Some((s, Ok(SignalV::Normal)))
    } else {
        match stmt_sem(s, rest[0], frame, depth) {
            Some((s1, Ok(SignalV::Normal))) => block_sem(s1, rest.subrange(1, rest.len() as int), frame, depth),
            other => other,
        }
    }
}

/// A `while` loop with `budget` iterations left.
pub open spec fn while_sem(
    s: IState,
    test: ExprV,
    body: Seq<StmtV>,
    frame: nat,
    depth: nat,
    budget: nat,
) -> Outcome<SignalV>
    decreases depth, 1 + esize(test) + ssizes(body), budget,
{
    match expr_sem(s, test, frame, depth) {
        None => None,
        Some((s1, Err(err))) => Some((s1, Err(err))),
        Some((s1, Ok(v))) => if !truthy(v) {
            Some((s1, Ok(SignalV::Normal)))
        } else if budget == 0 {
            Some((s1, Err(RuntimeError::LimitReached { line: 0 })))
        } else {
            match block_sem(s1, body, frame, depth) {
                Some((s2, Ok(SignalV::Break))) => Some((s2, Ok(SignalV::Normal))),
                Some((s2, Ok(SignalV::Normal))) => while_sem(s2, test, body, frame, depth, (budget - 1) as nat),
                Some((s2, Ok(SignalV::Continue))) => while_sem(s2, test, body, frame, depth, (budget - 1) as nat),
                other => other,
            }
        },
    }
}

/// `del`: each name is removed from the first frame that binds it, in
/// order; the first name bound nowhere stops it.
pub open spec fn delete_sem(s: IState, names: Seq<Token>, frame: nat) -> Outcome<SignalV>
    decreases names.len(),
{
    if names.len() == 0 {
        Some((s, Ok(SignalV::Normal)))
    } else {
        match binderv(s.frames, frame as int, names[0].lexeme@) {
            None => Some((s, Err(undefined(names[0])))),
            Some(j) => delete_sem(
                IState { frames: removev(s.frames, j, names[0].lexeme@), captured: s.captured, output: s.output },
                names.subrange(1, names.len() as int),
                frame,
            ),
        }
    }
}

/// Running one statement.
pub open spec fn stmt_sem(s: IState, st: StmtV, frame: nat, depth: nat) -> Outcome<SignalV>
    decreases depth, ssize(st), 0nat,
{
    match st {
        StmtV::Function { name, params, body } => {
            let s1 = IState {
                frames: s.frames,
                captured: if frame >= s.captured {
                    frame + 1
                } else {
                    s.captured
                },
                output: s.output,
            };
            let f = ValueV::UserFunction(FunV { name, params, body, closure: frame as usize });
            Some((bind_name(s1, frame, name.lexeme@, f), Ok(SignalV::Normal)))
        },
        StmtV::While { test, body } => while_sem(s, test, body, frame, depth, u64::MAX as nat),
        StmtV::If { test, body, or_else } => match expr_sem(s, test, frame, depth) {
            Some((s1, Ok(v))) => if truthy(v) {
                block_sem(s1, body, frame, depth)
            } else {
                match or_else {
                    Some(b) => block_sem(s1, b, frame, depth),
                    None => Some((s1, Ok(SignalV::Normal))),
                }
            },
            Some((s1, Err(err))) => Some((s1, Err(err))),
            None => None,
        },
        StmtV::Return(v) => match v {
            Some(e) => match expr_sem(s, e, frame, depth) {
                Some((s1, Ok(x))) => Some((s1, Ok(SignalV::Return(x)))),
                Some((s1, Err(err))) => Some((s1, Err(err))),
                None => None,
            },
            None => Some((s, Ok(SignalV::Return(ValueV::Null)))),
        },
        StmtV::Delete(names) => delete_sem(s, names, frame),
        StmtV::Expr(e) => match expr_sem(s, e, frame, depth) {
            Some((s1, Ok(_))) => Some((s1, Ok(SignalV::Normal))),
            Some((s1, Err(err))) => Some((s1, Err(err))),
            None => None,
        },
        StmtV::Echo(e) => match expr_sem(s, e, frame, depth) {
            Some((s1, Ok(v))) => Some(
                (
                    IState { frames: s1.frames, captured: s1.captured, output: s1.output.push(value_text(v)) },
                    Ok(SignalV::Normal),
                ),
            ),
            Some((s1, Err(err))) => Some((s1, Err(err))),
            None => None,
        },
        StmtV::Break => Some((s, Ok(SignalV::Break))),
        StmtV::Continue => Some((s, Ok(SignalV::Continue))),
    }
}

/// Running a program in the global frame: its statements in order, up to
/// the first error, `return`, `break` or `continue`.
pub open spec fn program_sem(s: IState, rest: Seq<StmtV>) -> Outcome<()>
    decreases rest.len(),
{
    if rest.len() == 0 {
        Some((s, Ok(())))
    } else {
        match stmt_sem(s, rest[0], 0, u64::MAX as nat) {
            None => None,
            Some((s1, Err(err))) => Some((s1, Err(err))),
            Some((s1, Ok(SignalV::Normal))) => program_sem(s1, rest.subrange(1, rest.len() as int)),
            Some((s1, Ok(_))) => Some((s1, Ok(()))),
        }
    }
}

} // verus!
