use std::rc::Rc;
use vstd::prelude::*;
use crate::ast::{Stmt, StmtV, stmts_view};
use crate::number::{Number, add_spec, div_spec, mul_spec, number_text, rem_spec, sub_spec};
use crate::token::{Literal, Token, TokenType};

verus! {

/// What a function of the host does when called.
#[derive(Clone, Copy, PartialEq, Eq, Debug, Structural)]
pub enum NativeKind {
    /// Wall-clock time in seconds since the Unix epoch.
    Clock,
}

/// A function provided by the host.
#[derive(Debug)]
pub struct NativeFunction {
    pub name: String,
    pub arity: usize,
    pub kind: NativeKind,
}

/// The declaration of a function of the language, shared by every value
/// made from it.
#[derive(Debug)]
pub struct FunctionDecl {
    pub name: Token,
    pub params: Vec<Token>,
    pub body: Vec<Stmt>,
}

/// A function of the language: its declaration and the environment frame
/// it was defined in.
#[derive(Debug)]
pub struct UserFunction {
    pub decl: Rc<FunctionDecl>,
    pub closure: usize,
}

/// A runtime value.
#[derive(Debug)]
pub enum Value {
    Number(Number),
    String(String),
    Bool(bool),
    Null,
    NativeFunction(NativeFunction),
    UserFunction(UserFunction),
}

/// The mathematical content of a `Value`: text as a sequence.
pub enum ValueV {
    Number(Number),
    String(Seq<char>),
    Bool(bool),
    Null,
    NativeFunction(NativeFunction),
    UserFunction(FunV),
}

/// The mathematical content of a function of the language: its name,
/// parameters and body, and the frame it was defined in.
pub struct FunV {
    pub name: Token,
    pub params: Seq<Token>,
    pub body: Seq<StmtV>,
    pub closure: usize,
}

pub open spec fn fun_view(f: UserFunction) -> FunV {
    FunV { name: f.decl.name, params: f.decl.params@, body: stmts_view(f.decl.body@), closure: f.closure }
}

impl View for Value {
    type V = ValueV;

    open spec fn view(&self) -> ValueV {
        match self {
            Value::Number(n) => ValueV::Number(*n),
            Value::String(s) => ValueV::String(s@),
            Value::Bool(b) => ValueV::Bool(*b),
            Value::Null => ValueV::Null,
            Value::NativeFunction(f) => ValueV::NativeFunction(*f),
            Value::UserFunction(f) => ValueV::UserFunction(fun_view(*f)),
        }
    }
}

/// The view of an evaluation result.
pub open spec fn result_view(r: Result<Value, RuntimeError>) -> Result<ValueV, RuntimeError> {
    match r {
        Ok(v) => Ok(v@),
        Err(e) => Err(e),
    }
}

/// Errors raised while running a program.
#[derive(Clone, PartialEq, Eq, Debug)]
pub enum RuntimeError {
    UndefinedVariable { name: String, line: usize },
    InvalidOperands { operator: String, line: usize },
    ArityMismatch { expected: usize, actual: usize, line: usize },
    NotCallable { line: usize },
    /// The call depth or the iteration count of one loop reached 2^64.
    LimitReached { line: usize },
}

impl RuntimeError {
    /// The source line the error is reported on.
    pub fn line(&self) -> (r: usize)
        ensures
            r == match self {
                RuntimeError::UndefinedVariable { line, .. } => *line,
                RuntimeError::InvalidOperands { line, .. } => *line,
                RuntimeError::ArityMismatch { line, .. } => *line,
                RuntimeError::NotCallable { line } => *line,
                RuntimeError::LimitReached { line } => *line,
            },
    {
        match self {
            RuntimeError::UndefinedVariable { line, .. } => *line,
            RuntimeError::InvalidOperands { line, .. } => *line,
            RuntimeError::ArityMismatch { line, .. } => *line,
            RuntimeError::NotCallable { line } => *line,
            RuntimeError::LimitReached { line } => *line,
        }
    }
}

/// Relies on `Rc::clone`: the new handle points to the same value.
#[verifier::external_body]
fn share<T>(r: &Rc<T>) -> (c: Rc<T>)
    ensures
        c == *r,
{
    Rc::clone(r)
}

/// Only `null` and `false` are falsy.
pub open spec fn truthy(v: ValueV) -> bool {
    match v {
        ValueV::Null => false,
        ValueV::Bool(b) => b,
        _ => true,
    }
}

/// Returns `true` if the value is "truthy".
pub fn is_truthy(v: &Value) -> (r: bool)
    ensures
        r == truthy(v@),
{
    match v {
        Value::Null => false,
        Value::Bool(b) => *b,
        _ => true,
    }
}

/// The value of a constant.
pub open spec fn literal_value(l: Literal) -> ValueV {
    match l {
        Literal::Number(n) => ValueV::Number(n),
        Literal::String(s) => ValueV::String(s@),
        Literal::Bool(b) => ValueV::Bool(b),
        Literal::Null => ValueV::Null,
    }
}

/// Returns the value of a literal.
pub fn get_value(l: &Literal) -> (v: Value)
    ensures
        v@ == literal_value(*l),
{
    match l {
        Literal::Number(n) => Value::Number(*n),
        Literal::String(s) => Value::String(s.clone()),
        Literal::Bool(b) => Value::Bool(*b),
        Literal::Null => Value::Null,
    }
}

/// How `echo` prints a value.
pub open spec fn value_text(v: ValueV) -> Seq<char> {
    match v {
        ValueV::Number(n) => number_text(n.raw as int),
        ValueV::String(s) => s,
        ValueV::Bool(b) => if b {
            "true"@
        } else {
            "false"@
        },
        ValueV::Null => "null"@,
        ValueV::NativeFunction(f) => "<native function "@ + f.name@ + ">"@,
        ValueV::UserFunction(f) => "<function "@ + f.name.lexeme@ + ">"@,
    }
}

/// The error for operands an operator does not accept.
pub open spec fn invalid(op: Token) -> RuntimeError {
    RuntimeError::InvalidOperands { operator: op.lexeme, line: op.line }
}

pub open spec fn number_result(op: Token, n: Option<Number>) -> Result<ValueV, RuntimeError> {
    match n {
        Some(n) => Ok(ValueV::Number(n)),
        None => Err(invalid(op)),
    }
}

/// The result of the binary operator of kind `ty` (token `op`) on two
/// numbers: comparisons give booleans; arithmetic fails when its result is
/// out of range or divides by zero.
pub open spec fn numeric_binary(ty: TokenType, op: Token, a: Number, b: Number) -> Result<ValueV, RuntimeError> {
    if ty == TokenType::Greater {
        Ok(ValueV::Bool(a.raw > b.raw))
    } else if ty == TokenType::GreaterEqual {
        Ok(ValueV::Bool(a.raw >= b.raw))
    } else if ty == TokenType::Less {
        Ok(ValueV::Bool(a.raw < b.raw))
    } else if ty == TokenType::LessEqual {
        Ok(ValueV::Bool(a.raw <= b.raw))
    } else if ty == TokenType::BangEqual {
        Ok(ValueV::Bool(a.raw != b.raw))
    } else if ty == TokenType::EqEqual {
        Ok(ValueV::Bool(a.raw == b.raw))
    } else if ty == TokenType::Minus {
        number_result(op, sub_spec(a.raw, b.raw))
    } else if ty == TokenType::Plus {
        number_result(op, add_spec(a.raw, b.raw))
    } else if ty == TokenType::Star {
        number_result(op, mul_spec(a.raw, b.raw))
    } else if ty == TokenType::Slash {
        number_result(op, div_spec(a.raw, b.raw))
    } else if ty == TokenType::Percent {
        number_result(op, rem_spec(a.raw, b.raw))
    } else {
        Err(invalid(op))
    }
}

/// What the binary operator of kind `ty` gives on `l` and `r`: numbers as
/// `numeric_binary` says, two strings concatenate under `+`, anything else
/// fails with `InvalidOperands`.
pub open spec fn binary_spec(ty: TokenType, op: Token, l: ValueV, r: ValueV) -> Result<ValueV, RuntimeError> {
    match (l, r) {
        (ValueV::Number(a), ValueV::Number(b)) => numeric_binary(ty, op, a, b),
        (ValueV::String(a), ValueV::String(b)) => if ty == TokenType::Plus {
            Ok(ValueV::String(a + b))
        } else {
            Err(invalid(op))
        },
        _ => Err(invalid(op)),
    }
}

/// Applies the binary operator of kind `ty` (reported as `op`) to two values.
pub fn binary_op(ty: TokenType, op: &Token, l: Value, r: Value) -> (res: Result<Value, RuntimeError>)
    ensures
        result_view(res) == binary_spec(ty, *op, l@, r@),
{
    let err = RuntimeError::InvalidOperands { operator: op.lexeme.clone(), line: op.line };
    match (l, r) {
        (Value::Number(a), Value::Number(b)) => {
            let n = if ty == TokenType::Greater {
                return Ok(Value::Bool(a.raw > b.raw));
            } else if ty == TokenType::GreaterEqual {
                return Ok(Value::Bool(a.raw >= b.raw));
            } else if ty == TokenType::Less {
                return Ok(Value::Bool(a.raw < b.raw));
            } else if ty == TokenType::LessEqual {
                return Ok(Value::Bool(a.raw <= b.raw));
            } else if ty == TokenType::BangEqual {
                return Ok(Value::Bool(a.raw != b.raw));
            } else if ty == TokenType::EqEqual {
                return Ok(Value::Bool(a.raw == b.raw));
            } else if ty == TokenType::Minus {
                a.sub(b)
            } else if ty == TokenType::Plus {
                a.add(b)
            } else if ty == TokenType::Star {
                a.mul(b)
            } else if ty == TokenType::Slash {
                a.div(b)
            } else if ty == TokenType::Percent {
                a.rem(b)
            } else {
                return Err(err);
            };
            match n {
                Some(n) => Ok(Value::Number(n)),
                None => Err(err),
            }
        },
        (Value::String(a), Value::String(b)) => {
            if ty == TokenType::Plus {
                Ok(Value::String(a.concat(b.as_str())))
            } else {
                Err(err)
            }
        },
        _ => Err(err),
    }
}

/// The binary operator that an augmented assignment applies.
pub open spec fn aug_base(ty: TokenType) -> TokenType {
    if ty == TokenType::MinusEqual {
        TokenType::Minus
    } else if ty == TokenType::PlusEqual {
        TokenType::Plus
    } else if ty == TokenType::PercentEqual {
        TokenType::Percent
    } else if ty == TokenType::SlashEqual {
        TokenType::Slash
    } else if ty == TokenType::StarEqual {
        TokenType::Star
    } else {
        TokenType::Eof
    }
}

/// Applies an augmented assignment operator (`+=`, `-=`, ...) to the old
/// value of the target and the value of the right-hand side.
pub fn aug_assign_op(op: &Token, target: Value, value: Value) -> (res: Result<Value, RuntimeError>)
    ensures
        result_view(res) == binary_spec(aug_base(op.ty), *op, target@, value@),
{
    let ty = op.ty;
    let base = if ty == TokenType::MinusEqual {
        TokenType::Minus
    } else if ty == TokenType::PlusEqual {
        TokenType::Plus
    } else if ty == TokenType::PercentEqual {
        TokenType::Percent
    } else if ty == TokenType::SlashEqual {
        TokenType::Slash
    } else if ty == TokenType::StarEqual {
        TokenType::Star
    } else {
        TokenType::Eof
    };
    binary_op(base, op, target, value)
}

/// The result of a unary operator on a value.
pub open spec fn unary_result(op: Token, v: ValueV) -> Result<ValueV, RuntimeError> {
    if op.ty == TokenType::Bang {
        Ok(ValueV::Bool(!truthy(v)))
    } else {
        match v {
            ValueV::Number(n) => if op.ty == TokenType::Plus {
                Ok(ValueV::Number(n))
            } else if op.ty == TokenType::Minus {
                number_result(op, sub_spec(0, n.raw))
            } else {
                Err(invalid(op))
            },
            _ => Err(invalid(op)),
        }
    }
}

/// Applies a unary operator (`!`, `-`, `+`) to a value.
pub fn unary_op(op: &Token, v: Value) -> (res: Result<Value, RuntimeError>)
    ensures
        result_view(res) == unary_result(*op, v@),
{
    if op.ty == TokenType::Bang {
        return Ok(Value::Bool(!is_truthy(&v)));
    }
    let err = RuntimeError::InvalidOperands { operator: op.lexeme.clone(), line: op.line };
    match v {
        Value::Number(n) => if op.ty == TokenType::Plus {
            Ok(Value::Number(n))
        } else if op.ty == TokenType::Minus {
            match n.neg() {
                Some(m) => Ok(Value::Number(m)),
                None => Err(err),
            }
        } else {
            Err(err)
        },
        _ => Err(err),
    }
}

/// The result of `++` or `--` on the value of a variable.
pub open spec fn step_result(op: Token, v: ValueV) -> Result<ValueV, RuntimeError> {
    match v {
        ValueV::Number(n) => if op.ty == TokenType::DoublePlus {
            number_result(op, add_spec(n.raw, 1_000_000_000))
        } else if op.ty == TokenType::DoubleMinus {
            number_result(op, sub_spec(n.raw, 1_000_000_000))
        } else {
            Err(invalid(op))
        },
        _ => Err(invalid(op)),
    }
}

/// Applies `++` or `--` to the value of a variable.
pub fn step_op(op: &Token, v: Value) -> (res: Result<Value, RuntimeError>)
    ensures
        result_view(res) == step_result(*op, v@),
{
    let err = RuntimeError::InvalidOperands { operator: op.lexeme.clone(), line: op.line };
    let one = Number::from_int(1);
    match v {
        Value::Number(n) => {
            let r = if op.ty == TokenType::DoublePlus {
                n.add(one)
            } else if op.ty == TokenType::DoubleMinus {
                n.sub(one)
            } else {
                None
            };
            match r {
                Some(m) => Ok(Value::Number(m)),
                None => Err(err),
            }
        },
        _ => Err(err),
    }
}

impl Value {
    /// Copies the value; a function value shares its declaration.
    pub fn copy(&self) -> (r: Value)
        ensures
            r == *self,
    {
        match self {
            Value::Number(n) => Value::Number(*n),
            Value::String(s) => Value::String(s.clone()),
            Value::Bool(b) => Value::Bool(*b),
            Value::Null => Value::Null,
            Value::NativeFunction(f) => Value::NativeFunction(
                NativeFunction { name: f.name.clone(), arity: f.arity, kind: f.kind },
            ),
            Value::UserFunction(f) => Value::UserFunction(
                UserFunction { decl: share(&f.decl), closure: f.closure },
            ),
        }
    }

    /// The printed representation of the value.
    pub fn text(&self) -> (r: String)
        ensures
            r@ == value_text(self@),
    {
        match self {
            Value::Number(n) => n.to_text(),
            Value::String(s) => s.clone(),
            Value::Bool(b) => if *b {
                "true".to_owned()
            } else {
                "false".to_owned()
            },
            Value::Null => "null".to_owned(),
            Value::NativeFunction(f) => "<native function ".to_owned().concat(f.name.as_str()).concat(">"),
            Value::UserFunction(f) => "<function ".to_owned().concat(f.decl.name.lexeme.as_str()).concat(">"),
        }
    }
}

} // verus!
