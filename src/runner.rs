use vstd::prelude::*;
use crate::ast::stmts_view;
use crate::grammar::program;
use crate::interpreter::{Interpreter, grows, holds, istate};
use crate::limits::stmts_limits;
use crate::semantics::program_sem;
use crate::lexer::{LexError, lex, lex_from, scan_step, scan_tokens, tokens_view};
use crate::parser::{ParseError, parse};
use crate::limits::over_limit;
use crate::token::{Token, TokenType};
use crate::value::RuntimeError;

verus! {

/// The error of one stage of running source text.
#[derive(Clone, PartialEq, Debug)]
pub enum ChonkError {
    Lex(LexError),
    Parse(ParseError),
    Runtime(RuntimeError),
}

/// What a successful scan gives: at least one token, the last an `Eof`, and
/// no more tokens than characters left plus one.
proof fn lemma_lex_shape(s: Seq<char>, i: nat, line: nat)
    ensures
        lex_from(s, i, line) matches Ok(toks) ==> {
            &&& toks.len() >= 1
            &&& toks.last().ty == TokenType::Eof
            &&& toks.len() <= if i <= s.len() { s.len() - i + 1 } else { 1 }
        },
    decreases s.len() - i,
{
    if i < s.len() {
        match scan_step(s, i as int, line) {
            Err(_) => {},
            Ok(st) => {
                if st.next > i && st.next <= s.len() {
                    lemma_lex_shape(s, st.next as nat, st.line);
                }
            },
        }
    }
}

pub open spec fn runtime_part(r: Result<(), ChonkError>) -> Result<(), RuntimeError> {
    match r {
        Ok(u) => Ok(u),
        Err(ChonkError::Runtime(e)) => Err(e),
        Err(_) => Ok(()),
    }
}

/// What running the token sequence `toks` does: a parse error comes back
/// and changes nothing; else the over-cap lists are appended to the
/// warnings and the program runs as `program_sem` says.
pub open spec fn run_outcome(
    toks: Seq<Token>,
    old: Interpreter,
    new: Interpreter,
    w0: Seq<Token>,
    w1: Seq<Token>,
    r: Result<(), ChonkError>,
) -> bool {
    match program(toks) {
        Err(e) => (r matches Err(ChonkError::Parse(pe)) && pe@ == e) && new == old && w1 == w0,
        Ok(stmts) => {
            &&& (r is Ok || r matches Err(ChonkError::Runtime(_)))
            &&& w1 == w0 + stmts_limits(stmts)
            &&& holds(program_sem(istate(old), stmts), istate(new), runtime_part(r))
        },
    }
}

/// Scans, parses and runs source text against the interpreter's globals.
/// A lexical or parse error leaves the interpreter as it was. Argument and
/// parameter lists over the cap are appended to `warnings` (see `limits`)
/// before the program runs.
pub fn run(input: &str, interpreter: &mut Interpreter, warnings: &mut Vec<Token>) -> (r: Result<(), ChonkError>)
    requires
        old(interpreter).inv(),
        input@.len() < usize::MAX,
    ensures
        grows(old(interpreter), final(interpreter)),
        (r matches Err(ChonkError::Lex(_))) ==> final(warnings)@ == old(warnings)@,
        (r matches Err(ChonkError::Parse(_))) ==> final(warnings)@ == old(warnings)@,
        final(warnings)@.len() >= old(warnings)@.len(),
        final(warnings)@.subrange(0, old(warnings)@.len() as int) == old(warnings)@,
        lex(input@) matches Err(e) ==> r == Err::<(), ChonkError>(ChonkError::Lex(e)),
        (r matches Err(ChonkError::Lex(_))) ==> *final(interpreter) == *old(interpreter),
        (r matches Err(ChonkError::Parse(_))) ==> *final(interpreter) == *old(interpreter),
        lex(input@) is Ok ==> exists|toks: Seq<Token>|
            tokens_view(toks) == lex(input@)->Ok_0 && #[trigger] run_outcome(
                toks,
                *old(interpreter),
                *final(interpreter),
                old(warnings)@,
                final(warnings)@,
                r,
            ),
{
    let ghost i0 = *interpreter;
    let ghost w0 = warnings@;
    let tokens = match scan_tokens(input) {
        Err(e) => {
            assert(warnings@.subrange(0, warnings@.len() as int) =~= warnings@);
            return Err(ChonkError::Lex(e));
        },
        Ok(t) => t,
    };
    proof {
        lemma_lex_shape(input@, 0, 1);
        assert(tokens_view(tokens@).len() == tokens@.len());
        assert(tokens_view(tokens@).last() == tokens@.last()@);
    }
    let statements = match parse(&tokens) {
        Err(e) => {
            assert(warnings@.subrange(0, warnings@.len() as int) =~= warnings@);
            assert(run_outcome(tokens@, i0, *interpreter, w0, warnings@, Err(ChonkError::Parse(e))));
            return Err(ChonkError::Parse(e));
        },
        Ok(s) => s,
    };
    let mut over = over_limit(&statements);
    let ghost before = warnings@;
    warnings.append(&mut over);
    assert(warnings@.subrange(0, before.len() as int) =~= before);
    assert(warnings@ =~= w0 + stmts_limits(stmts_view(statements@)));
    let ghost i1 = *interpreter;
    let res = interpreter.interpret(statements.as_slice());
    let ghost res_g = res;
    let r = match res {
        Err(e) => Err(ChonkError::Runtime(e)),
        Ok(u) => Ok(u),
    };
    assert(runtime_part(r) == res_g);
    assert(run_outcome(tokens@, i0, *interpreter, w0, warnings@, r));
    r
}

} // verus!
