//! The grammar of the language, as spec functions over a token sequence.
//! Each function takes a position and gives the parsed node with the
//! position after it, or the first error.
use vstd::prelude::*;
use vstd::pervasive::arbitrary;
use crate::ast::{ExprV, StmtV};
use crate::token::{Literal, Token, TokenType};

verus! {

/// The mathematical content of a `ParseError`.
pub enum ParseErrorV {
    ExpectedExpression(Token),
    TokenMismatch { expected: TokenType, found: Token, message: Seq<char> },
    InvalidTarget(Token),
}

pub type PResult<T> = Result<(T, int), ParseErrorV>;

/// A token sequence the parser accepts: it ends with `Eof`.
pub open spec fn well_formed(t: Seq<Token>) -> bool {
    t.len() > 0 && t.last().ty == TokenType::Eof
}

pub open spec fn in_range(t: Seq<Token>, p: int) -> bool {
    0 <= p < t.len()
}

pub open spec fn at_end(t: Seq<Token>, p: int) -> bool {
    t[p].ty == TokenType::Eof
}

/// The token at `p` has kind `ty` (and is not the end).
pub open spec fn check(t: Seq<Token>, p: int, ty: TokenType) -> bool {
    !at_end(t, p) && t[p].ty == ty
}

pub open spec fn consume(t: Seq<Token>, p: int, ty: TokenType, message: Seq<char>) -> PResult<Token> {
    if check(t, p, ty) {
        Ok((t[p], p + 1))
    } else {
        Err(ParseErrorV::TokenMismatch { expected: ty, found: t[p], message })
    }
}

// Binding levels, from loosest to tightest: 9 assignment, 8 augmented
// assignment, 7 `||`, 6 `&&`, 5 equality, 4 comparison, 3 additive,
// 2 multiplicative, 1 unary and prefix, 0 call and suffix.

/// The operators of a left-associative binary level.
pub open spec fn level_op(level: nat, ty: TokenType) -> bool {
    if level == 7 {
        ty == TokenType::DoubleVBar
    } else if level == 6 {
        ty == TokenType::DoubleAmper
    } else if level == 5 {
        ty == TokenType::BangEqual || ty == TokenType::EqEqual
    } else if level == 4 {
        ty == TokenType::Greater || ty == TokenType::GreaterEqual || ty == TokenType::Less
            || ty == TokenType::LessEqual
    } else if level == 3 {
        ty == TokenType::Minus || ty == TokenType::Plus
    } else if level == 2 {
        ty == TokenType::Percent || ty == TokenType::Slash || ty == TokenType::Star
    } else {
        false
    }
}

pub open spec fn aug_op(ty: TokenType) -> bool {
    ty == TokenType::MinusEqual || ty == TokenType::PlusEqual || ty == TokenType::PercentEqual
        || ty == TokenType::SlashEqual || ty == TokenType::StarEqual
}

pub open spec fn unary_op(ty: TokenType) -> bool {
    ty == TokenType::Bang || ty == TokenType::Minus || ty == TokenType::Plus
}

pub open spec fn step_op(ty: TokenType) -> bool {
    ty == TokenType::DoubleMinus || ty == TokenType::DoublePlus
}

/// `&&` and `||` build logical nodes; the other levels binary nodes.
pub open spec fn combine(level: nat, l: ExprV, op: Token, r: ExprV) -> ExprV {
    if level == 7 || level == 6 {
        ExprV::Logical(Box::new(l), op, Box::new(r))
    } else {
        ExprV::Binary(Box::new(l), op, Box::new(r))
    }
}

/// A primary expression: a literal, a grouping or a name.
pub open spec fn primary(t: Seq<Token>, p: int) -> PResult<ExprV>
    decreases t.len() - p, 0nat,
{
    if !in_range(t, p) {
        arbitrary()
    } else if check(t, p, TokenType::True) {
        Ok((ExprV::Constant(Literal::Bool(true)), p + 1))
    } else if check(t, p, TokenType::False) {
        Ok((ExprV::Constant(Literal::Bool(false)), p + 1))
    } else if check(t, p, TokenType::Null) {
        Ok((ExprV::Constant(Literal::Null), p + 1))
    } else if check(t, p, TokenType::Number) && t[p].literal matches Some(Literal::Number(_)) {
        Ok((ExprV::Constant(t[p].literal->0), p + 1))
    } else if check(t, p, TokenType::String) && t[p].literal matches Some(Literal::String(_)) {
        Ok((ExprV::Constant(t[p].literal->0), p + 1))
    } else if check(t, p, TokenType::LParen) {
        match expr_level(t, p + 1, 9) {
            Err(e) => Err(e),
            Ok((e, p1)) => if p1 <= p || p1 >= t.len() {
                arbitrary()
            } else {
                match consume(t, p1, TokenType::RParen, "Expected ')' after expression"@) {
                    Err(err) => Err(err),
                    Ok((_, p2)) => Ok((ExprV::Grouping(Box::new(e)), p2)),
                }
            },
        }
    } else if check(t, p, TokenType::Ident) {
        Ok((ExprV::Variable(t[p]), p + 1))
    } else {
        Err(ParseErrorV::ExpectedExpression(t[p]))
    }
}

/// The arguments of a call, from the first one on, gathered onto `acc`.
pub open spec fn args_tail(t: Seq<Token>, p: int, acc: Seq<ExprV>) -> PResult<Seq<ExprV>>
    decreases t.len() - p, 22nat,
{
    if !in_range(t, p) {
        arbitrary()
    } else {
        match expr_level(t, p, 9) {
            Err(e) => Err(e),
            Ok((e, p1)) => if p1 <= p || p1 >= t.len() {
                arbitrary()
            } else if check(t, p1, TokenType::Comma) {
                args_tail(t, p1 + 1, acc.push(e))
            } else {
                Ok((acc.push(e), p1))
            },
        }
    }
}

/// Call argument lists that follow `callee`, from position `p` on.
pub open spec fn call_tail(t: Seq<Token>, p: int, callee: ExprV) -> PResult<ExprV>
    decreases t.len() - p, 1nat,
{
    if !in_range(t, p) {
        arbitrary()
    } else if check(t, p, TokenType::LParen) {
        let args = if check(t, p + 1, TokenType::RParen) {
            Ok((Seq::<ExprV>::empty(), p + 1))
        } else {
            args_tail(t, p + 1, Seq::empty())
        };
        match args {
            Err(e) => Err(e),
            Ok((args, p1)) => if p1 <= p || p1 >= t.len() {
                arbitrary()
            } else {
                match consume(t, p1, TokenType::RParen, "Expected ')' after arguments"@) {
                    Err(e) => Err(e),
                    Ok((paren, p2)) => call_tail(t, p2, ExprV::Call(Box::new(callee), paren, args)),
                }
            },
        }
    } else {
        Ok((callee, p))
    }
}

/// A primary expression followed by an optional `++` or `--`.
pub open spec fn suffix(t: Seq<Token>, p: int) -> PResult<ExprV>
    decreases t.len() - p, 1nat,
{
    match primary(t, p) {
        Err(e) => Err(e),
        Ok((e, p1)) => if p1 <= p || p1 >= t.len() {
            arbitrary()
        } else if !at_end(t, p1) && step_op(t[p1].ty) {
            match e {
                ExprV::Variable(name) => Ok((ExprV::Prefix { operator: t[p1], name }, p1 + 1)),
                _ => Err(ParseErrorV::InvalidTarget(t[p1])),
            }
        } else {
            Ok((e, p1))
        },
    }
}

/// Further operands of a left-associative level, folded onto `lhs`.
pub open spec fn binary_tail(t: Seq<Token>, p: int, lhs: ExprV, level: nat) -> PResult<ExprV>
    decreases t.len() - p, 2 * level + 2,
{
    if !in_range(t, p) || level < 2 || level > 7 {
        arbitrary()
    } else if !at_end(t, p) && level_op(level, t[p].ty) {
        match expr_level(t, p + 1, (level - 1) as nat) {
            Err(e) => Err(e),
            Ok((r, p1)) => if p1 <= p || p1 >= t.len() {
                arbitrary()
            } else {
                binary_tail(t, p1, combine(level, lhs, t[p], r), level)
            },
        }
    } else {
        Ok((lhs, p))
    }
}

/// An expression at a binding level.
pub open spec fn expr_level(t: Seq<Token>, p: int, level: nat) -> PResult<ExprV>
    decreases t.len() - p, 2 * level + 3,
{
    if !in_range(t, p) || level > 9 {
        arbitrary()
    } else if level == 9 {
        match expr_level(t, p, 8) {
            Err(e) => Err(e),
            Ok((lhs, p1)) => if p1 <= p || p1 >= t.len() {
                arbitrary()
            } else if check(t, p1, TokenType::Equal) {
                match expr_level(t, p1 + 1, 9) {
                    Err(e) => Err(e),
                    Ok((value, p2)) => match lhs {
                        ExprV::Variable(name) => Ok((ExprV::Assign(name, Box::new(value)), p2)),
                        _ => Err(ParseErrorV::InvalidTarget(t[p1])),
                    },
                }
            } else {
                Ok((lhs, p1))
            },
        }
    } else if level == 8 {
        match expr_level(t, p, 7) {
            Err(e) => Err(e),
            Ok((lhs, p1)) => if p1 <= p || p1 >= t.len() {
                arbitrary()
            } else if !at_end(t, p1) && aug_op(t[p1].ty) {
                match expr_level(t, p1 + 1, 7) {
                    Err(e) => Err(e),
                    Ok((value, p2)) => match lhs {
                        ExprV::Variable(name) => Ok(
                            (ExprV::AugAssign { name, operator: t[p1], value: Box::new(value) }, p2),
                        ),
                        _ => Err(ParseErrorV::InvalidTarget(t[p1])),
                    },
                }
            } else {
                Ok((lhs, p1))
            },
        }
    } else if level >= 2 {
        match expr_level(t, p, (level - 1) as nat) {
            Err(e) => Err(e),
            Ok((lhs, p1)) => if p1 <= p || p1 >= t.len() {
                arbitrary()
            } else {
                binary_tail(t, p1, lhs, level)
            },
        }
    } else if level == 1 {
        if !at_end(t, p) && unary_op(t[p].ty) {
            match expr_level(t, p + 1, 1) {
                Err(e) => Err(e),
                Ok((r, p1)) => Ok((ExprV::Unary(t[p], Box::new(r)), p1)),
            }
        } else if !at_end(t, p) && step_op(t[p].ty) {
            match expr_level(t, p + 1, 0) {
                Err(e) => Err(e),
                Ok((e, p1)) => match e {
                    ExprV::Variable(name) => Ok((ExprV::Prefix { operator: t[p], name }, p1)),
                    _ => Err(ParseErrorV::InvalidTarget(t[p])),
                },
            }
        } else {
            expr_level(t, p, 0)
        }
    } else {
        match suffix(t, p) {
            Err(e) => Err(e),
            Ok((e, p1)) => if p1 <= p || p1 >= t.len() {
                arbitrary()
            } else {
                call_tail(t, p1, e)
            },
        }
    }
}

/// An expression.
pub open spec fn expression(t: Seq<Token>, p: int) -> PResult<ExprV> {
    expr_level(t, p, 9)
}

/// Names separated by commas, gathered onto `acc`.
pub open spec fn names_tail(t: Seq<Token>, p: int, acc: Seq<Token>, message: Seq<char>) -> PResult<Seq<Token>>
    decreases t.len() - p,
{
    if !in_range(t, p) {
        arbitrary()
    } else {
        match consume(t, p, TokenType::Ident, message) {
            Err(e) => Err(e),
            Ok((name, p1)) => if p1 >= t.len() {
                arbitrary()
            } else if check(t, p1, TokenType::Comma) {
                names_tail(t, p1 + 1, acc.push(name), message)
            } else {
                Ok((acc.push(name), p1))
            },
        }
    }
}

/// The statements of a block after its `{`, gathered onto `acc`, and the `}`.
pub open spec fn block_tail(t: Seq<Token>, p: int, acc: Seq<StmtV>) -> PResult<Seq<StmtV>>
    decreases t.len() - p, 31nat,
{
    if !in_range(t, p) {
        arbitrary()
    } else if !check(t, p, TokenType::RBrace) && !at_end(t, p) {
        match statement(t, p) {
            Err(e) => Err(e),
            Ok((s, p1)) => if p1 <= p || p1 >= t.len() {
                arbitrary()
            } else {
                block_tail(t, p1, acc.push(s))
            },
        }
    } else {
        match consume(t, p, TokenType::RBrace, "Expected '}' after block"@) {
            Err(e) => Err(e),
            Ok((_, p1)) => Ok((acc, p1)),
        }
    }
}

/// A block: `{` statements `}`.
pub open spec fn block(t: Seq<Token>, p: int) -> PResult<Seq<StmtV>>
    decreases t.len() - p, 25nat,
{
    if !in_range(t, p) {
        arbitrary()
    } else {
        match consume(t, p, TokenType::LBrace, "Expected '{' before block"@) {
            Err(e) => Err(e),
            Ok((_, p1)) => if p1 >= t.len() {
                arbitrary()
            } else {
                block_tail(t, p1, Seq::empty())
            },
        }
    }
}

/// An expression followed by `;`.
pub open spec fn terminated(t: Seq<Token>, p: int, message: Seq<char>) -> PResult<ExprV> {
    match expression(t, p) {
        Err(e) => Err(e),
        Ok((e, p1)) => if p1 <= p || p1 >= t.len() {
            arbitrary()
        } else {
            match consume(t, p1, TokenType::Semicolon, message) {
                Err(err) => Err(err),
                Ok((_, p2)) => Ok((e, p2)),
            }
        },
    }
}

/// A function declaration after `func`.
pub open spec fn function_stmt(t: Seq<Token>, p: int) -> PResult<StmtV>
    decreases t.len() - p, 29nat,
{
    if !in_range(t, p) {
        arbitrary()
    } else {
        match consume(t, p, TokenType::Ident, "Expected function name"@) {
            Err(e) => Err(e),
            Ok((name, p1)) => if p1 >= t.len() {
                arbitrary()
            } else {
                match consume(t, p1, TokenType::LParen, "Expected '(' after function name"@) {
                    Err(e) => Err(e),
                    Ok((_, p2)) => if p2 >= t.len() {
                        arbitrary()
                    } else {
                        let params = if check(t, p2, TokenType::RParen) {
                            Ok((Seq::<Token>::empty(), p2))
                        } else {
                            names_tail(t, p2, Seq::empty(), "Expected parameter name"@)
                        };
                        match params {
                            Err(e) => Err(e),
                            Ok((params, p3)) => if p3 < p2 || p3 >= t.len() {
                                arbitrary()
                            } else {
                                match consume(t, p3, TokenType::RParen, "Expected ')' after parameters"@) {
                                    Err(e) => Err(e),
                                    Ok((_, p4)) => if p4 >= t.len() {
                                        arbitrary()
                                    } else {
                                        match block(t, p4) {
                                            Err(e) => Err(e),
                                            Ok((body, p5)) => Ok((StmtV::Function { name, params, body }, p5)),
                                        }
                                    },
                                }
                            },
                        }
                    },
                }
            },
        }
    }
}

/// A `while` statement after the keyword.
pub open spec fn while_stmt(t: Seq<Token>, p: int) -> PResult<StmtV>
    decreases t.len() - p, 27nat,
{
    match expression(t, p) {
        Err(e) => Err(e),
        Ok((test, p1)) => if p1 <= p || p1 >= t.len() {
            arbitrary()
        } else {
            match block(t, p1) {
                Err(e) => Err(e),
                Ok((body, p2)) => Ok((StmtV::While { test, body }, p2)),
            }
        },
    }
}

/// An `if` statement after the keyword.
pub open spec fn if_stmt(t: Seq<Token>, p: int) -> PResult<StmtV>
    decreases t.len() - p, 27nat,
{
    match expression(t, p) {
        Err(e) => Err(e),
        Ok((test, p1)) => if p1 <= p || p1 >= t.len() {
            arbitrary()
        } else {
            match block(t, p1) {
                Err(e) => Err(e),
                Ok((body, p2)) => if p2 <= p1 || p2 >= t.len() {
                    arbitrary()
                } else if check(t, p2, TokenType::Else) {
                    match block(t, p2 + 1) {
                        Err(e) => Err(e),
                        Ok((or_else, p3)) => Ok((StmtV::If { test, body, or_else: Some(or_else) }, p3)),
                    }
                } else {
                    Ok((StmtV::If { test, body, or_else: None }, p2))
                },
            }
        },
    }
}

/// A statement.
pub open spec fn statement(t: Seq<Token>, p: int) -> PResult<StmtV>
    decreases t.len() - p, 30nat,
{
    if !in_range(t, p) {
        arbitrary()
    } else if check(t, p, TokenType::Func) {
        function_stmt(t, p + 1)
    } else if check(t, p, TokenType::Return) {
        if check(t, p + 1, TokenType::Semicolon) {
            Ok((StmtV::Return(None), p + 2))
        } else {
            match terminated(t, p + 1, "Expected ';' after return value"@) {
                Err(e) => Err(e),
                Ok((e, p1)) => Ok((StmtV::Return(Some(e)), p1)),
            }
        }
    } else if check(t, p, TokenType::Delete) {
        match names_tail(t, p + 1, Seq::empty(), "Expected variable name"@) {
            Err(e) => Err(e),
            Ok((names, p1)) => if p1 >= t.len() {
                arbitrary()
            } else {
                match consume(t, p1, TokenType::Semicolon, "Expected ';' after del statement"@) {
                    Err(e) => Err(e),
                    Ok((_, p2)) => Ok((StmtV::Delete(names), p2)),
                }
            },
        }
    } else if check(t, p, TokenType::While) {
        while_stmt(t, p + 1)
    } else if check(t, p, TokenType::If) {
        if_stmt(t, p + 1)
    } else if check(t, p, TokenType::Echo) {
        match terminated(t, p + 1, "Expected ';' after value"@) {
            Err(e) => Err(e),
            Ok((e, p1)) => Ok((StmtV::Echo(e), p1)),
        }
    } else if check(t, p, TokenType::Break) {
        match consume(t, p + 1, TokenType::Semicolon, "Expected ';' after 'break'"@) {
            Err(e) => Err(e),
            Ok((_, p1)) => Ok((StmtV::Break, p1)),
        }
    } else if check(t, p, TokenType::Continue) {
        match consume(t, p + 1, TokenType::Semicolon, "Expected ';' after 'continue'"@) {
            Err(e) => Err(e),
            Ok((_, p1)) => Ok((StmtV::Continue, p1)),
        }
    } else {
        match terminated(t, p, "Expected ';' after expression"@) {
            Err(e) => Err(e),
            Ok((e, p1)) => Ok((StmtV::Expr(e), p1)),
        }
    }
}

/// The statements from `p` to the end, gathered onto `acc`.
pub open spec fn program_from(t: Seq<Token>, p: int, acc: Seq<StmtV>) -> Result<Seq<StmtV>, ParseErrorV>
    decreases t.len() - p,
{
    if !in_range(t, p) {
        arbitrary()
    } else if at_end(t, p) {
        Ok(acc)
    } else {
        match statement(t, p) {
            Err(e) => Err(e),
            Ok((s, p1)) => if p1 <= p || p1 >= t.len() {
                arbitrary()
            } else {
                program_from(t, p1, acc.push(s))
            },
        }
    }
}

/// The program that a token sequence spells: its statements in order, or
/// the first parse error.
pub open spec fn program(t: Seq<Token>) -> Result<Seq<StmtV>, ParseErrorV> {
    program_from(t, 0, Seq::empty())
}

} // verus!
