//! Identifiers: a letter, digit or underscore, then more of them or a few other bytes.
use crate::lexer::{eq_ignore_ascii_case, eq_ignore_case};
use crate::parsers::util::{ErrorKind, Input, PErr, PResult, failure_of};
use vstd::prelude::*;

verus! {

/// The name an identifier stands for.
#[derive(Debug, PartialEq, Clone)]
pub struct Identifier {
    pub name: Vec<u8>,
}

impl Identifier {
    pub fn new(name: &[u8]) -> (r: Identifier)
        ensures
            r.name@ == name@,
    {
        Identifier { name: vstd::slice::slice_to_vec(name) }
    }
}

pub fn convert_identifier(input: Input) -> (r: Identifier)
    ensures
        r.name@ == input@,
{
    Identifier::new(input.0)
}

pub open spec fn is_letter(b: u8) -> bool {
    (65 <= b <= 90) || (97 <= b <= 122)
}

/// Bytes an identifier may start with.
pub open spec fn is_ident_begin(b: u8) -> bool {
    is_letter(b) || b == 95 || (48 <= b <= 57)
}

/// Bytes an identifier may continue with: those it may start with, `^`, `@` and the
/// Latin-1 umlauts and sharp s.
pub open spec fn is_ident_end(b: u8) -> bool {
    is_ident_begin(b) || b == 94 || b == 64 || b == 0xC4 || b == 0xE4 || b == 0xD6 || b == 0xF6
        || b == 0xFC || b == 0xDC || b == 0xDF
}

/// Whether `s` spells `if` or `var`, in any case.
pub open spec fn spec_is_keyword(s: Seq<u8>) -> bool {
    eq_ignore_case(s, seq![105u8, 102]) || eq_ignore_case(s, seq![118u8, 97, 114])
}

/// Whether `s` is a keyword or made of digits only; such words are no identifiers.
pub open spec fn spec_is_valid(s: Seq<u8>) -> bool {
    spec_is_keyword(s) || (forall|k: int| 0 <= k < s.len() ==> 48 <= #[trigger] s[k] <= 57)
}

pub fn is_keyword(input: Input) -> (r: bool)
    ensures
        r == spec_is_keyword(input@),
{
    let if_word: [u8; 2] = [105, 102];
    let var_word: [u8; 3] = [118, 97, 114];
    proof {
        assert(if_word@ =~= seq![105u8, 102]);
        assert(var_word@ =~= seq![118u8, 97, 114]);
    }
    eq_ignore_ascii_case(input.0, &if_word) || eq_ignore_ascii_case(input.0, &var_word)
}

pub fn is_valid(input: Input) -> (r: bool)
    ensures
        r == spec_is_valid(input@),
{
    if is_keyword(input) {
        return true;
    }
    let s = input.0;
    let mut k: usize = 0;
    while k < s.len()
        invariant
            k <= s@.len(),
            s@ == input@,
            !spec_is_keyword(input@),
            forall|m: int| 0 <= m < k ==> 48 <= #[trigger] s@[m] <= 57,
        decreases s@.len() - k,
    {
        if !(48 <= s[k] && s[k] <= 57) {
            assert(!(48 <= s@[k as int] <= 57));
            return false;
        }
        k = k + 1;
    }
    true
}

/// The index of the first byte at or after `i` that may not continue an identifier.
pub open spec fn ident_end(s: Seq<u8>, i: int) -> int
    decreases s.len() - i,
    when 0 <= i
{
    if i < s.len() && is_ident_end(s[i]) {
        ident_end(s, i + 1)
    } else {
        i
    }
}

/// The length of the identifier at the start of `s`; `Err(None)` on empty input.
pub open spec fn spec_identifier(s: Seq<u8>) -> Result<int, Option<ErrorKind>> {
    if s.len() == 0 {
        Err(None)
    } else if !is_ident_begin(s[0]) {
        Err(Some(ErrorKind::OneOf))
    } else if spec_is_valid(s.take(ident_end(s, 1))) {
        Err(Some(ErrorKind::Verify))
    } else {
        Ok(ident_end(s, 1))
    }
}

fn ident_end_byte(b: u8) -> (r: bool)
    ensures
        r == is_ident_end(b),
{
    (65 <= b && b <= 90) || (97 <= b && b <= 122) || b == 95 || (48 <= b && b <= 57) || b == 94
        || b == 64 || b == 0xC4 || b == 0xE4 || b == 0xD6 || b == 0xF6 || b == 0xFC || b == 0xDC
        || b == 0xDF
}

/// An identifier that is neither a keyword nor a number.
pub fn identifier_parser<'a>(input: Input<'a>) -> (r: PResult<'a, Identifier>)
    ensures
        match r {
            Ok((rest, id)) => spec_identifier(input@) matches Ok(j) && id.name@ == input@.take(j)
                && rest@ == input@.skip(j),
            Err(e) => spec_identifier(input@) == Err::<int, Option<ErrorKind>>(failure_of(e)) && (
            e matches PErr::Error(at, _) ==> at@ == input@),
        },
{
    let s = input.0;
    if s.len() == 0 {
        return Err(PErr::Incomplete);
    }
    let b = s[0];
    if !((65 <= b && b <= 90) || (97 <= b && b <= 122) || b == 95 || (48 <= b && b <= 57)) {
        return Err(PErr::Error(input, ErrorKind::OneOf));
    }
    let mut j: usize = 1;
    while j < s.len() && ident_end_byte(s[j])
        invariant
            1 <= j <= s@.len(),
            ident_end(s@, 1) == ident_end(s@, j as int),
        decreases s@.len() - j,
    {
        j = j + 1;
    }
    let word = vstd::slice::slice_subrange(s, 0, j);
    proof {
        assert(word@ =~= s@.take(j as int));
    }
    if is_valid(Input(word)) {
        return Err(PErr::Error(input, ErrorKind::Verify));
    }
    let rest = vstd::slice::slice_subrange(s, j, s.len());
    proof {
        assert(rest@ =~= s@.skip(j as int));
    }
    Ok((Input(rest), convert_identifier(Input(word))))
}

} // verus!
