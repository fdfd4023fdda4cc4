use std::rc::Rc;
use std::time::UNIX_EPOCH;
use vstd::prelude::*;
use crate::ast::{
    Expr, ExprV, Stmt, StmtV, exprs_view, lemma_exprs_view_index, lemma_exprs_view_len, lemma_stmts_view_index,
    lemma_stmts_view_len, copy_stmts, copy_tokens, expr_size, exprs_size, lemma_exprs_size_elem,
    lemma_stmts_size_elem, stmt_size, stmts_size, stmts_view,
};
use crate::environment::{Environment, frames_view, strings_view, value_ok};
use crate::semantics::{
    IState, Outcome, SignalV, apply_sem, block_sem, args_sem, bind_sem, delete_sem, expr_sem,
    program_sem, stmt_sem, while_sem,
};
use crate::number::Number;
use crate::token::{Token, TokenType};
use crate::value::{
    FunctionDecl, NativeFunction, NativeKind, RuntimeError, UserFunction, Value, ValueV,
    aug_assign_op, binary_op, get_value, is_truthy, result_view, step_op, unary_op, value_text,
};

verus! {

/// How a statement finished: normally, or by `return`, `break` or `continue`.
#[derive(Debug)]
pub enum Signal {
    Normal,
    Return(Value),
    Break,
    Continue,
}

pub open spec fn signal_ok(s: Signal, n: nat) -> bool {
    s matches Signal::Return(v) ==> value_ok(v, n)
}

/// The state of an interpreter as `semantics` sees it.
pub open spec fn istate(i: Interpreter) -> IState {
    IState { frames: frames_view(i.env.frames@), captured: i.env.captured as nat, output: strings_view(i.output@) }
}

pub open spec fn signal_view(s: Signal) -> SignalV {
    match s {
        Signal::Normal => SignalV::Normal,
        Signal::Return(v) => SignalV::Return(v@),
        Signal::Break => SignalV::Break,
        Signal::Continue => SignalV::Continue,
    }
}

pub open spec fn signal_result_view(r: Result<Signal, RuntimeError>) -> Result<SignalV, RuntimeError> {
    match r {
        Ok(s) => Ok(signal_view(s)),
        Err(e) => Err(e),
    }
}

pub open spec fn values_view(v: Seq<Value>) -> Seq<ValueV> {
    v.map_values(|x: Value| x@)
}

/// The step ended in state `s` with result `r`, as the outcome `o` says,
/// unless `o` leaves it unstated.
pub open spec fn holds<T>(o: Outcome<T>, s: IState, r: Result<T, RuntimeError>) -> bool {
    match o {
        Some((s2, r2)) => s == s2 && r == r2,
        None => true,
    }
}

/// Relies on `SystemTime::elapsed` from `UNIX_EPOCH`: the milliseconds
/// since the Unix epoch, or 0 for a clock set before it.
#[verifier::external_body]
fn now_millis() -> (r: u128) {
    match UNIX_EPOCH.elapsed() {
        Ok(d) => d.as_millis(),
        Err(_) => 0,
    }
}

/// A tree-walking evaluator. Its globals persist from one `interpret` call
/// to the next; what `echo` prints is kept in `output` until taken.
pub struct Interpreter {
    pub env: Environment,
    pub output: Vec<String>,
}

/// The state after a step keeps what the state before it had: the frames
/// (more may follow) and the printed lines (more may follow).
pub open spec fn grows(a: &Interpreter, b: &Interpreter) -> bool {
    &&& b.env.wf()
    &&& b.env.frames@.len() >= a.env.frames@.len()
    &&& b.env.captured >= a.env.captured
    &&& b.output@.len() >= a.output@.len()
    &&& forall|k: int| 0 <= k < a.output@.len() ==> #[trigger] b.output@[k] == a.output@[k]
}

impl Interpreter {
    pub open spec fn inv(&self) -> bool {
        self.env.wf()
    }

    /// Creates an interpreter whose globals hold the native function `clock`.
    pub fn new() -> (r: Interpreter)
        ensures
            r.inv(),
            r.output@.len() == 0,
            r.env.captured == 0,
            r.env.frames@.len() == 1,
            frames_view(r.env.frames@)[0].outer is None,
            frames_view(r.env.frames@)[0].names == seq!["clock"@],
            frames_view(r.env.frames@)[0].values.len() == 1,
            frames_view(r.env.frames@)[0].values[0] matches Some(ValueV::NativeFunction(f)) && f.name@ == "clock"@
                && f.arity == 0 && f.kind == NativeKind::Clock,
    {
        let mut env = Environment::new();
        let clock = Value::NativeFunction(
            NativeFunction { name: "clock".to_owned(), arity: 0, kind: NativeKind::Clock },
        );
        let name = "clock".to_owned();
        env.set(0, &name, clock);
        proof {
            assert(seq![crate::environment::FrameV { names: Seq::empty(), values: Seq::empty(), outer: None }][0].names
                =~= Seq::<Seq<char>>::empty());
            assert(Seq::<Seq<char>>::empty().push("clock"@) =~= seq!["clock"@]);
        }
        Interpreter { env, output: Vec::new() }
    }

    /// Hands over what `echo` printed since the last call, in order.
    pub fn take_output(&mut self) -> (r: Vec<String>)
        ensures
            r@ == old(self).output@,
            final(self).output@.len() == 0,
            final(self).env == old(self).env,
    {
        let mut out: Vec<String> = Vec::new();
        std::mem::swap(&mut out, &mut self.output);
        out
    }

    /// Interprets a list of statements in the global frame, in order. The
    /// first runtime error stops it; bindings made before it remain.
    pub fn interpret(&mut self, statements: &[Stmt]) -> (r: Result<(), RuntimeError>)
        requires
            old(self).inv(),
        ensures
            grows(old(self), final(self)),
            holds(program_sem(istate(*old(self)), stmts_view(statements@)), istate(*final(self)), r),
    {
        let mut i: usize = 0;
        proof {
            lemma_grows_refl(self);
            lemma_stmts_view_len(statements@);
            assert(stmts_view(statements@).subrange(0, statements@.len() as int) =~= stmts_view(statements@));
        }
        while i < statements.len()
            invariant
                grows(old(self), self),
                i <= statements@.len(),
                i <= statements@.len(),
                stmts_view(statements@).len() == statements@.len(),
                program_sem(istate(*old(self)), stmts_view(statements@)) matches Some(t) ==> program_sem(
                    istate(*self),
                    stmts_view(statements@).subrange(i as int, statements@.len() as int),
                ) == Some(t),
            decreases statements@.len() - i,
        {
            let ghost mid = *self;
            proof {
                lemma_stmts_view_index(statements@, i as int);
                let rest = stmts_view(statements@).subrange(i as int, statements@.len() as int);
                assert(rest[0] == stmts_view(statements@)[i as int]);
                assert(rest.subrange(1, rest.len() as int) =~= stmts_view(statements@).subrange(
                    i + 1,
                    statements@.len() as int,
                ));
            }
            let s = self.execute(&statements[i], 0, u64::MAX);
            proof {
                lemma_grows_trans(old(self), &mid, self);
            }
            match s {
                Err(e) => {
                    return Err(e);
                },
                Ok(Signal::Normal) => {},
                Ok(_) => {
                    return Ok(());
                },
            }
            i += 1;
        }
        Ok(())
    }

    /// Executes a list of statements in order, stopping at the first that
    /// does not finish normally.
    fn exec_block(&mut self, stmts: &Vec<Stmt>, frame: usize, depth: u64) -> (r: Result<Signal, RuntimeError>)
        requires
            old(self).inv(),
            frame < old(self).env.frames@.len(),
        ensures
            grows(old(self), final(self)),
            r matches Ok(s) ==> signal_ok(s, final(self).env.captured as nat),
            holds(
                block_sem(istate(*old(self)), stmts_view(stmts@), frame as nat, depth as nat),
                istate(*final(self)),
                signal_result_view(r),
            ),
        decreases depth, stmts_size(stmts@) + 1,
    {
        let mut i: usize = 0;
        proof {
            lemma_grows_refl(self);
        }
        proof {
            lemma_stmts_view_len(stmts@);
            assert(stmts_view(stmts@).subrange(0, stmts@.len() as int) =~= stmts_view(stmts@));
        }
        while i < stmts.len()
            invariant
                grows(old(self), self),
                frame < old(self).env.frames@.len(),
                i <= stmts@.len(),
                stmts_view(stmts@).len() == stmts@.len(),
                block_sem(istate(*old(self)), stmts_view(stmts@), frame as nat, depth as nat) matches Some(t)
                    ==> block_sem(
                    istate(*self),
                    stmts_view(stmts@).subrange(i as int, stmts@.len() as int),
                    frame as nat,
                    depth as nat,
                ) == Some(t),
            decreases stmts@.len() - i,
        {
            let ghost mid = *self;
            proof {
                lemma_stmts_size_elem(stmts@, i as int);
                lemma_stmts_view_index(stmts@, i as int);
                let rest = stmts_view(stmts@).subrange(i as int, stmts@.len() as int);
                assert(rest[0] == stmts_view(stmts@)[i as int]);
                assert(rest.subrange(1, rest.len() as int) =~= stmts_view(stmts@).subrange(i + 1, stmts@.len() as int));
            }
            let s = self.execute(&stmts[i], frame, depth);
            proof {
                lemma_grows_trans(old(self), &mid, self);
            }
            match s {
                Err(e) => {
                    return Err(e);
                },
                Ok(Signal::Normal) => {},
                Ok(sig) => {
                    return Ok(sig);
                },
            }
            i += 1;
        }
        proof {
            assert(stmts_view(stmts@).subrange(i as int, stmts@.len() as int) =~= Seq::<StmtV>::empty());
        }
        Ok(Signal::Normal)
    }

    /// Executes one statement.
    fn execute(&mut self, stmt: &Stmt, frame: usize, depth: u64) -> (r: Result<Signal, RuntimeError>)
        requires
            old(self).inv(),
            frame < old(self).env.frames@.len(),
        ensures
            grows(old(self), final(self)),
            r matches Ok(s) ==> signal_ok(s, final(self).env.captured as nat),
            holds(stmt_sem(istate(*old(self)), stmt@, frame as nat, depth as nat), istate(*final(self)), signal_result_view(r)),
        decreases depth, stmt_size(*stmt),
    {
        match stmt {
            Stmt::Function { name, params, body } => {
                let decl = FunctionDecl { name: name.copy(), params: copy_tokens(params), body: copy_stmts(body) };
                self.env.capture(frame);
                let f = Value::UserFunction(UserFunction { decl: Rc::new(decl), closure: frame });
                self.env.set(frame, &name.lexeme, f);
                Ok(Signal::Normal)
            },
            Stmt::While { test, body } => {
                let mut budget: u64 = u64::MAX;
                proof {
                    lemma_grows_refl(self);
                }
                loop
                    invariant
                        grows(old(self), self),
                        frame < old(self).env.frames@.len(),
                        expr_size(*test) < stmt_size(*stmt),
                        stmts_size(body@) + 1 < stmt_size(*stmt),
                        *stmt == (Stmt::While { test: *test, body: *body }),
                        stmt_sem(istate(*old(self)), stmt@, frame as nat, depth as nat) matches Some(t) ==> while_sem(
                            istate(*self),
                            test@,
                            stmts_view(body@),
                            frame as nat,
                            depth as nat,
                            budget as nat,
                        ) == Some(t),
                    decreases budget,
                {
                    let ghost mid = *self;
                    let t = self.evaluate(test, frame, depth);
                    proof {
                        lemma_grows_trans(old(self), &mid, self);
                    }
                    match t {
                        Err(e) => {
                            return Err(e);
                        },
                        Ok(v) => if !is_truthy(&v) {
                            return Ok(Signal::Normal);
                        },
                    }
                    if budget == 0 {
                        return Err(RuntimeError::LimitReached { line: 0 });
                    }
                    budget -= 1;
                    let ghost mid2 = *self;
                    let s = self.exec_block(body, frame, depth);
                    proof {
                        lemma_grows_trans(old(self), &mid2, self);
                    }
                    match s {
                        Err(e) => {
                            return Err(e);
                        },
                        Ok(Signal::Break) => {
                            return Ok(Signal::Normal);
                        },
                        Ok(Signal::Return(v)) => {
                            return Ok(Signal::Return(v));
                        },
                        Ok(_) => {},
                    }
                }
            },
            Stmt::If { test, body, or_else } => {
                let ghost mid = *self;
                let t = self.evaluate(test, frame, depth);
                match t {
                    Err(e) => Err(e),
                    Ok(v) => {
                        let ghost mid2 = *self;
                        let r = if is_truthy(&v) {
                            self.exec_block(body, frame, depth)
                        } else {
                            match or_else {
                                Some(b) => self.exec_block(b, frame, depth),
                                None => Ok(Signal::Normal),
                            }
                        };
                        proof {
                            lemma_grows_trans(old(self), &mid2, self);
                        }
                        r
                    },
                }
            },
            Stmt::Return(value) => match value {
                Some(e) => match self.evaluate(e, frame, depth) {
                    Err(e) => Err(e),
                    Ok(v) => Ok(Signal::Return(v)),
                },
                None => Ok(Signal::Return(Value::Null)),
            },
            Stmt::Delete(names) => {
                let mut i: usize = 0;
                proof {
                    lemma_grows_refl(self);
                }
                proof {
                    assert(names@.subrange(0, names@.len() as int) =~= names@);
                }
                while i < names.len()
                    invariant
                        grows(old(self), self),
                        frame < old(self).env.frames@.len(),
                        *stmt == Stmt::Delete(*names),
                        i <= names@.len(),
                        stmt_sem(istate(*old(self)), stmt@, frame as nat, depth as nat) matches Some(t) ==> delete_sem(
                            istate(*self),
                            names@.subrange(i as int, names@.len() as int),
                            frame as nat,
                        ) == Some(t),
                    decreases names@.len() - i,
                {
                    let ghost mid = *self;
                    proof {
                        let rest = names@.subrange(i as int, names@.len() as int);
                        assert(rest[0] == names@[i as int]);
                        assert(rest.subrange(1, rest.len() as int) =~= names@.subrange(i + 1, names@.len() as int));
                    }
                    match self.env.remove(frame, &names[i]) {
                        Err(e) => {
                            return Err(e);
                        },
                        Ok(()) => {},
                    }
                    proof {
                        lemma_grows_trans(old(self), &mid, self);
                    }
                    i += 1;
                }
                proof {
                    assert(names@.subrange(i as int, names@.len() as int) =~= Seq::<Token>::empty());
                }
                Ok(Signal::Normal)
            },
            Stmt::Expr(e) => match self.evaluate(e, frame, depth) {
                Err(e) => Err(e),
                Ok(_) => Ok(Signal::Normal),
            },
            Stmt::Echo(e) => match self.evaluate(e, frame, depth) {
                Err(e) => Err(e),
                Ok(v) => {
                    let ghost mid = *self;
                    self.output.push(v.text());
                    proof {
                        lemma_grows_trans(old(self), &mid, self);
                        assert(strings_view(self.output@) =~= strings_view(mid.output@).push(crate::value::value_text(v@)));
                    }
                    Ok(Signal::Normal)
                },
            },
            Stmt::Break => Ok(Signal::Break),
            Stmt::Continue => Ok(Signal::Continue),
        }
    }

    /// Evaluates an expression in frame `frame`.
    fn evaluate(&mut self, expr: &Expr, frame: usize, depth: u64) -> (r: Result<Value, RuntimeError>)
        requires
            old(self).inv(),
            frame < old(self).env.frames@.len(),
        ensures
            grows(old(self), final(self)),
            r matches Ok(v) ==> value_ok(v, final(self).env.captured as nat),
            holds(expr_sem(istate(*old(self)), expr@, frame as nat, depth as nat), istate(*final(self)), result_view(r)),
        decreases depth, expr_size(*expr),
    {
        match expr {
            Expr::Constant(l) => Ok(get_value(l)),
            Expr::Variable(name) => self.env.get(frame, name),
            Expr::Grouping(e) => self.evaluate(e, frame, depth),
            Expr::Unary(op, e) => match self.evaluate(e, frame, depth) {
                Err(e) => Err(e),
                Ok(v) => unary_op(op, v),
            },
            Expr::Binary(l, op, rhs) => {
                let ghost s0 = *self;
                let a = match self.evaluate(l, frame, depth) {
                    Err(e) => {
                        return Err(e);
                    },
                    Ok(a) => a,
                };
                let ghost s1 = *self;
                let b = match self.evaluate(rhs, frame, depth) {
                    Err(e) => {
                        proof {
                            lemma_grows_trans(&s0, &s1, self);
                        }
                        return Err(e);
                    },
                    Ok(b) => b,
                };
                proof {
                    lemma_grows_trans(&s0, &s1, self);
                }
                binary_op(op.ty, op, a, b)
            },
            Expr::Logical(l, op, rhs) => {
                let ghost s0 = *self;
                let a = match self.evaluate(l, frame, depth) {
                    Err(e) => {
                        return Err(e);
                    },
                    Ok(a) => a,
                };
                if op.ty == TokenType::DoubleVBar {
                    if is_truthy(&a) {
                        return Ok(a);
                    }
                } else if !is_truthy(&a) {
                    return Ok(a);
                }
                let ghost s1 = *self;
                let r = self.evaluate(rhs, frame, depth);
                proof {
                    lemma_grows_trans(&s0, &s1, self);
                }
                r
            },
            Expr::Assign(name, e) => match self.evaluate(e, frame, depth) {
                Err(e) => Err(e),
                Ok(v) => {
                    let ghost s1 = *self;
                    self.env.set(frame, &name.lexeme, v.copy());
                    proof {
                        lemma_grows_trans(old(self), &s1, self);
                    }
                    Ok(v)
                },
            },
            Expr::AugAssign { name, operator, value } => {
                let target = match self.env.get(frame, name) {
                    Err(e) => {
                        return Err(e);
                    },
                    Ok(t) => t,
                };
                let rhs = match self.evaluate(value, frame, depth) {
                    Err(e) => {
                        return Err(e);
                    },
                    Ok(v) => v,
                };
                match aug_assign_op(operator, target, rhs) {
                    Err(e) => Err(e),
                    Ok(v) => {
                        let ghost s1 = *self;
                        self.env.set(frame, &name.lexeme, v.copy());
                        proof {
                            lemma_grows_trans(old(self), &s1, self);
                        }
                        Ok(v)
                    },
                }
            },
            Expr::Prefix { operator, name } => {
                let target = match self.env.get(frame, name) {
                    Err(e) => {
                        return Err(e);
                    },
                    Ok(t) => t,
                };
                match step_op(operator, target) {
                    Err(e) => Err(e),
                    Ok(v) => {
                        self.env.set(frame, &name.lexeme, v.copy());
                        Ok(v)
                    },
                }
            },
            Expr::Call(callee, paren, arguments) => {
                let ghost s0 = *self;
                let ghost args_v = exprs_view(arguments@);
                proof {
                    lemma_exprs_view_len(arguments@);
                }
                let f = match self.evaluate(callee, frame, depth) {
                    Err(e) => {
                        return Err(e);
                    },
                    Ok(f) => f,
                };
                let ghost s1 = *self;
                match f {
                    Value::NativeFunction(_) | Value::UserFunction(_) => {},
                    _ => {
                        return Err(RuntimeError::NotCallable { line: paren.line });
                    },
                }
                let mut args: Vec<Value> = Vec::new();
                let mut i: usize = 0;
                proof {
                    lemma_grows_refl(self);
                    assert(args_v.subrange(0, args_v.len() as int) =~= args_v);
                    assert(values_view(args@) =~= Seq::<ValueV>::empty());
                }
                while i < arguments.len()
                    invariant
                        grows(&s0, self),
                        grows(&s1, self),
                        s0 == *old(self),
                        frame < s0.env.frames@.len(),
                        exprs_size(arguments@) < expr_size(*expr),
                        *expr == Expr::Call(*callee, *paren, *arguments),
                        value_ok(f, self.env.captured as nat),
                        forall|k: int| 0 <= k < args@.len() ==> value_ok(#[trigger] args@[k], self.env.captured as nat),
                        i <= arguments@.len(),
                        args@.len() == i,
                        args_v == exprs_view(arguments@),
                        args_v.len() == arguments@.len(),
                        holds(
                            expr_sem(istate(s0), (**callee)@, frame as nat, depth as nat),
                            istate(s1),
                            Ok::<ValueV, RuntimeError>(f@),
                        ),
                        f is NativeFunction || f is UserFunction,
                        args_sem(istate(s1), args_v, frame as nat, depth as nat, Seq::empty()) matches Some(t)
                            ==> args_sem(
                            istate(*self),
                            args_v.subrange(i as int, args_v.len() as int),
                            frame as nat,
                            depth as nat,
                            values_view(args@),
                        ) == Some(t),
                    decreases arguments@.len() - i,
                {
                    let ghost s2 = *self;
                    proof {
                        lemma_exprs_size_elem(arguments@, i as int);
                        lemma_exprs_view_index(arguments@, i as int);
                        let rest = args_v.subrange(i as int, args_v.len() as int);
                        assert(rest[0] == args_v[i as int]);
                        assert(rest.subrange(1, rest.len() as int) =~= args_v.subrange(i + 1, args_v.len() as int));
                    }
                    let v = match self.evaluate(&arguments[i], frame, depth) {
                        Err(e) => {
                            proof {
                                lemma_grows_trans(&s0, &s2, self);
                            }
                            return Err(e);
                        },
                        Ok(v) => v,
                    };
                    proof {
                        lemma_grows_trans(&s0, &s2, self);
                        lemma_grows_trans(&s1, &s2, self);
                        assert(values_view(args@.push(v)) =~= values_view(args@).push(v@));
                    }
                    args.push(v);
                    i += 1;
                }
                proof {
                    assert(args_v.subrange(args_v.len() as int, args_v.len() as int) =~= Seq::<ExprV>::empty());
                }
                let ghost s3 = *self;
                let r = self.invoke(f, args, paren, depth);
                proof {
                    lemma_grows_trans(&s0, &s3, self);
                }
                r
            },
        }
    }

    /// Applies a function value to evaluated arguments.
    fn invoke(&mut self, f: Value, args: Vec<Value>, paren: &Token, depth: u64) -> (r: Result<Value, RuntimeError>)
        requires
            old(self).inv(),
            value_ok(f, old(self).env.captured as nat),
            forall|k: int| 0 <= k < args@.len() ==> value_ok(#[trigger] args@[k], old(self).env.captured as nat),
        ensures
            grows(old(self), final(self)),
            r matches Ok(v) ==> value_ok(v, final(self).env.captured as nat),
            holds(apply_sem(istate(*old(self)), f@, values_view(args@), *paren, depth as nat), istate(*final(self)), result_view(r)),
        decreases depth, 1nat,
    {
        let ghost s0 = *self;
        let ghost vals = values_view(args@);
        proof {
            lemma_grows_refl(self);
        }
        match f {
            Value::NativeFunction(nf) => {
                if args.len() != nf.arity {
                    return Err(RuntimeError::ArityMismatch { expected: nf.arity, actual: args.len(), line: paren.line });
                }
                match nf.kind {
                    NativeKind::Clock => {
                        let ms = now_millis();
                        let capped: u128 = if ms > 1_000_000_000_000_000_000_000_000u128 {
                            1_000_000_000_000_000_000_000_000u128
                        } else {
                            ms
                        };
                        Ok(Value::Number(Number { raw: (capped * 1_000_000) as i128 }))
                    },
                }
            },
            Value::UserFunction(uf) => {
                let decl = uf.decl;
                let arity = decl.params.len();
                if args.len() != arity {
                    return Err(RuntimeError::ArityMismatch { expected: arity, actual: args.len(), line: paren.line });
                }
                if depth == 0 {
                    return Err(RuntimeError::LimitReached { line: paren.line });
                }
                let keep = self.env.frames.len();
                let call_frame = self.env.new_outer(uf.closure);
                let ghost s3 = *self;
                let mut k: usize = 0;
                proof {
                    lemma_grows_refl(self);
                }
                while k < arity
                    invariant
                        grows(&s3, self),
                        call_frame == keep,
                        call_frame < self.env.frames@.len(),
                        arity == decl.params@.len() == args@.len(),
                        vals == values_view(args@),
                        forall|j: int| 0 <= j < args@.len() ==> value_ok(#[trigger] args@[j], self.env.captured as nat),
                        bind_sem(istate(*self), keep as nat, decl.params@, vals, k as nat) == bind_sem(
                            istate(s3),
                            keep as nat,
                            decl.params@,
                            vals,
                            0,
                        ),
                    decreases arity - k,
                {
                    let ghost s4 = *self;
                    self.env.set(call_frame, &decl.params[k].lexeme, args[k].copy());
                    proof {
                        lemma_grows_trans(&s3, &s4, self);
                        assert(strings_view(self.output@) == strings_view(s4.output@));
                        assert(istate(*self) == crate::semantics::bind_name(
                            istate(s4),
                            keep as nat,
                            decl.params@[k as int].lexeme@,
                            vals[k as int],
                        ));
                    }
                    k += 1;
                }
                let ghost s4 = *self;
                let r = self.exec_block(&decl.body, call_frame, depth - 1);
                proof {
                    lemma_grows_trans(&s3, &s4, self);
                    lemma_grows_trans(&s0, &s3, self);
                }
                if self.env.captured <= keep {
                    // no function value was made during the call:
                    // its frames can go
                    let ghost s5 = *self;
                    self.env.release(keep);
                    assert(grows(&s0, self)) by {
                        assert(s5.output == self.output);
                        assert(keep >= s0.env.frames@.len());
                    }
                }
                match r {
                    Err(e) => Err(e),
                    Ok(Signal::Return(v)) => Ok(v),
                    Ok(_) => Ok(Value::Null),
                }
            },
            _ => Err(RuntimeError::NotCallable { line: paren.line }),
        }
    }
}

proof fn lemma_grows_refl(a: &Interpreter)
    requires
        a.env.wf(),
    ensures
        grows(a, a),
{
}

proof fn lemma_grows_trans(a: &Interpreter, b: &Interpreter, c: &Interpreter)
    requires
        grows(a, b),
        grows(b, c),
    ensures
        grows(a, c),
{
    assert forall|k: int| 0 <= k < a.output@.len() implies #[trigger] c.output@[k] == a.output@[k] by {
        assert(c.output@[k] == b.output@[k]);
    }
}

} // verus!
