//! String literals in double quotes.
use crate::parsers::util::{ErrorKind, Input, PErr, PResult, failure_of};
use vstd::prelude::*;

verus! {

/// The bytes between the quotes of a string literal.
#[derive(Debug, PartialEq, Clone)]
pub struct StringLiteral {
    pub data: Vec<u8>,
}

impl StringLiteral {
    pub fn new(data: &[u8]) -> (r: StringLiteral)
        ensures
            r.data@ == data@,
    {
        StringLiteral { data: vstd::slice::slice_to_vec(data) }
    }
}

pub fn is_not_quote(input: u8) -> (r: bool)
    ensures
        r == (input != 34),
{
    input != 34
}

pub fn convert_string_literal(input: Input) -> (r: StringLiteral)
    ensures
        r.data@ == input@,
{
    StringLiteral::new(input.0)
}

/// The index of the first `"` at or after `i`, or the end of `s`.
pub open spec fn quote_end(s: Seq<u8>, i: int) -> int
    decreases s.len() - i,
    when 0 <= i
{
    if i < s.len() && s[i] != 34 {
        quote_end(s, i + 1)
    } else {
        i
    }
}

/// Where the closing quote of a string literal at the start of `s` stands; `Err(None)` when
/// the input ends first, `Err(Some(kind))` when `s` does not start with a quote.
pub open spec fn spec_string(s: Seq<u8>) -> Result<int, Option<ErrorKind>> {
    if s.len() == 0 {
        Err(None)
    } else if s[0] != 34 {
        Err(Some(ErrorKind::Tag))
    } else if quote_end(s, 1) >= s.len() {
        Err(None)
    } else {
        Ok(quote_end(s, 1))
    }
}

proof fn lemma_quote_end(s: Seq<u8>, i: int)
    requires
        0 <= i <= s.len(),
    ensures
        i <= quote_end(s, i) <= s.len(),
    decreases s.len() - i,
{
    if i < s.len() && s[i] != 34 {
        lemma_quote_end(s, i + 1);
    }
}

/// A string literal: `"`, any bytes but `"`, `"`.
pub fn string_parser<'a>(input: Input<'a>) -> (r: PResult<'a, StringLiteral>)
    ensures
        match r {
            Ok((rest, lit)) => spec_string(input@) matches Ok(j) && lit.data@ == input@.subrange(1, j)
                && rest@ == input@.skip(j + 1),
            Err(e) => spec_string(input@) == Err::<int, Option<ErrorKind>>(failure_of(e)) && (
            e matches PErr::Error(at, _) ==> at@ == input@),
        },
{
    let s = input.0;
    if s.len() == 0 {
        return Err(PErr::Incomplete);
    }
    if s[0] != 34 {
        return Err(PErr::Error(input, ErrorKind::Tag));
    }
    let mut j: usize = 1;
    while j < s.len() && is_not_quote(s[j])
        invariant
            1 <= j <= s@.len(),
            quote_end(s@, 1) == quote_end(s@, j as int),
        decreases s@.len() - j,
    {
        j = j + 1;
    }
    if j >= s.len() {
        return Err(PErr::Incomplete);
    }
    let lit = convert_string_literal(Input(vstd::slice::slice_subrange(s, 1, j)));
    let rest = vstd::slice::slice_subrange(s, j + 1, s.len());
    proof {
        assert(rest@ =~= s@.skip(j + 1));
    }
    Ok((Input(rest), lit))
}

} // verus!
