//! Prefix operator expressions over raw bytes, read by the token parser.
use crate::lexer::{lex, spec_lex, tokens_view};
use crate::parser::parser::{g_unary, need, without_comments, Parser};
use crate::parsers::util::{ErrorKind, Input, PErr, PResult};
use crate::types::Expression;
use vstd::prelude::*;

verus! {

/// The position where the rest of the input starts: a token's start, at most the input's end.
pub open spec fn rest_start(start: int, len: int) -> int {
    if start <= len {
        start
    } else {
        len
    }
}

/// Prefix operators `! ~ + -` applied to a value, at the start of the input. The input is
/// tokenized as a whole; the rest starts at the first token that was not used.
#[allow(non_snake_case)]
pub fn Unary<'a>(input: Input<'a>) -> (r: PResult<'a, Expression>)
    requires
        input@.len() < usize::MAX,
    ensures
        match spec_lex(input@, 0, 0) {
            Err(_) => r == Err::<(Input<'a>, Expression), PErr<'a>>(
                PErr::Error(input, ErrorKind::Lex),
            ),
            Ok(ts) => {
                let t = without_comments(ts);
                let o = g_unary(t, 0, 0, need(t.len() as int, 0, 6) as nat);
                match o.res {
                    Err(_) => r == Err::<(Input<'a>, Expression), PErr<'a>>(
                        PErr::Error(input, ErrorKind::Parse),
                    ),
                    Ok(e) => r matches Ok((rest, x)) && x@ == e && rest@ == input@.skip(
                        rest_start(t[o.cur].span.0, input@.len() as int),
                    ),
                }
            },
        },
{
    let toks = match lex(input.0) {
        Ok(t) => t,
        Err(_) => return Err(PErr::Error(input, ErrorKind::Lex)),
    };
    let mut p = Parser::new(toks.as_slice());
    let ghost t = p.toks();
    let res = p.unary();
    proof {
        assert(need(t.len() as int, 0, 6) >= 0);
        assert(g_unary(t, 0, 0, need(t.len() as int, 0, 6) as nat) == (crate::parser::parser::Out {
            cur: p.cur(),
            prog: p.prog(),
            res: crate::parser::parser::rv(res),
        }));
    }
    match res {
        Err(_) => Err(PErr::Error(input, ErrorKind::Parse)),
        Ok(e) => {
            let start = p.span_start();
            let start = if start <= input.0.len() {
                start
            } else {
                input.0.len()
            };
            let rest = vstd::slice::slice_subrange(input.0, start, input.0.len());
            proof {
                assert(rest@ =~= input@.skip(start as int));
            }
            Ok((Input(rest), e))
        },
    }
}

} // verus!
