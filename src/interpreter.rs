//! One line of input through the whole pipeline: tokens, tree, value.
use vstd::prelude::*;
use crate::env::Environment;
use crate::lexer::{tokenize, tokens_of};
use crate::node::{Expr, Node, evaluate};
use crate::parser::{Parser, parse_statement_at, trailing_message};
use crate::token::lexemes_of;

verus! {

/// What a line gives in `env`: its value, or the lexical or syntax error that stops it,
/// together with the table afterwards. Only a line that parses is evaluated.
pub open spec fn interpret(s: Seq<char>, env: Map<Seq<char>, i32>) -> (
    Result<Expr, Seq<char>>,
    Map<Seq<char>, i32>,
) {
    match tokens_of(s) {
        Err(m) => (Err(m), env),
        Ok(t) => match parse_statement_at(t, 0) {
            Err(m) => (Err(m), env),
            Ok((e, q)) => if q < t.len() {
                (Err(trailing_message()), env)
            } else {
                let (v, env1) = evaluate(e, env);
                (Ok(v), env1)
            },
        },
    }
}

/// Tokenizes, parses and evaluates one line in `env`. A lexical or syntax error,
/// trailing tokens included, is returned as `Err` and leaves `env` as it was; an
/// evaluation error is an `Ok` holding an `Error` node.
pub fn run_line(line: &str, env: &mut Environment) -> (r: Result<Node, String>)
    requires
        old(env).wf(),
    ensures
        final(env).wf(),
        match (r, interpret(line@, old(env)@)) {
            (Ok(n), (Ok(e), after)) => n@ == e && final(env)@ == after,
            (Err(m), (Err(sm), after)) => m@ == sm && final(env)@ == after,
            _ => false,
        },
{
    let tokens = match tokenize(line) {
        Ok(t) => t,
        Err(m) => return Err(m),
    };
    let mut parser = Parser::new(tokens);
    let node = match parser.parse_all() {
        Ok(n) => n,
        Err(m) => return Err(m),
    };
    match parser.status() {
        Ok(_) => {},
        Err(m) => return Err(m),
    }
    Ok(node.eval(env))
}

} // verus!
