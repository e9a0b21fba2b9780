//! Inputs and results of the byte combinators, and whitespace with comments.
use vstd::prelude::*;

verus! {

/// The bytes still to be parsed.
#[derive(Debug, PartialEq, Clone, Copy)]
pub struct Input<'a>(pub &'a [u8]);

impl<'a> View for Input<'a> {
    type V = Seq<u8>;

    open spec fn view(&self) -> Seq<u8> {
        self.0@
    }
}

/// Which combinator gave up.
#[derive(Debug, PartialEq, Eq, Clone, Copy)]
pub enum ErrorKind {
    /// None of several alternatives matched.
    Alt,
    /// A fixed tag did not match.
    Tag,
    /// A byte outside the accepted set came first.
    OneOf,
    /// A match was found and then refused.
    Verify,
    /// The bytes could not be tokenized.
    Lex,
    /// The tokens did not form the expected construct.
    Parse,
}

/// Why a combinator failed: the input ended too early, or it does not match at `Input`.
#[derive(Debug, PartialEq, Clone, Copy)]
pub enum PErr<'a> {
    Incomplete,
    Error(Input<'a>, ErrorKind),
}

/// A combinator's result: the rest of the input and what was parsed.
pub type PResult<'a, O> = Result<(Input<'a>, O), PErr<'a>>;

/// The failure a combinator reports, as the incomplete case (`None`) or the error kind.
pub open spec fn failure_of(e: PErr) -> Option<ErrorKind> {
    match e {
        PErr::Incomplete => None,
        PErr::Error(_, k) => Some(k),
    }
}

/// Concatenates the inner vectors in order.
pub fn flatten_vec<T>(vec: Vec<Vec<T>>) -> (r: Vec<T>)
    ensures
        r@ == vec@.map_values(|v: Vec<T>| v@).flatten(),
{
    let ghost views = vec@.map_values(|v: Vec<T>| v@);
    let mut out: Vec<T> = Vec::new();
    let mut rest = vec;
    let ghost mut done: Seq<Seq<T>> = Seq::empty();
    while rest.len() > 0
        invariant
            views == done + rest@.map_values(|v: Vec<T>| v@),
            out@ == done.flatten(),
        decreases rest.len(),
    {
        let ghost before = rest@;
        let mut inner = rest.remove(0);
        let ghost inner_v = inner@;
        proof {
            assert(before.map_values(|v: Vec<T>| v@) =~= seq![inner_v] + rest@.map_values(|v: Vec<T>| v@));
            done.lemma_flatten_push(inner_v);
        }
        out.append(&mut inner);
        proof {
            assert(views =~= done.push(inner_v) + rest@.map_values(|v: Vec<T>| v@));
            done = done.push(inner_v);
        }
    }
    proof {
        assert(views =~= done);
    }
    out
}

// ------------------------------------------------------------------
// Whitespace and comments
// ------------------------------------------------------------------

pub open spec fn is_ws_byte(b: u8) -> bool {
    b == 32 || b == 9 || b == 13 || b == 10 || b == 12
}

/// The index of the first byte at or after `i` that is not whitespace.
pub open spec fn ws_end(s: Seq<u8>, i: int) -> int
    decreases s.len() - i,
    when 0 <= i
{
    if i < s.len() && is_ws_byte(s[i]) {
        ws_end(s, i + 1)
    } else {
        i
    }
}

/// The index of the first newline at or after `i`, or the end of `s`.
pub open spec fn line_end(s: Seq<u8>, i: int) -> int
    decreases s.len() - i,
    when 0 <= i
{
    if i < s.len() && s[i] != 10 {
        line_end(s, i + 1)
    } else {
        i
    }
}

/// The index of the first `*/` at or after `i`.
pub open spec fn close_at(s: Seq<u8>, i: int) -> Option<int>
    decreases s.len() - i,
    when 0 <= i
{
    if i + 1 < s.len() {
        if s[i] == 42 && s[i + 1] == 47 {
            Some(i)
        } else {
            close_at(s, i + 1)
        }
    } else {
        None
    }
}

/// How many bytes one piece of whitespace at the start of `s` takes: a line comment up to
/// and with its newline (or to the end), a block comment up to its first `*/`, or a run of
/// blanks, tabs, line breaks and form feeds. `Err(None)` when the input ends before a piece
/// can be told apart or closed, `Err(Some(kind))` when none starts here.
pub open spec fn spec_whitespace(s: Seq<u8>) -> Result<int, Option<ErrorKind>> {
    if s.len() == 0 {
        Err(None)
    } else if s[0] == 47 {
        if s.len() == 1 {
            Err(None)
        } else if s[1] == 47 {
            let e = line_end(s, 2);
            Ok(
                if e < s.len() {
                    e + 1
                } else {
                    e
                },
            )
        } else if s[1] == 42 {
            match close_at(s, 2) {
                Some(k) => Ok(k + 2),
                None => Err(None),
            }
        } else {
            Err(Some(ErrorKind::Alt))
        }
    } else if is_ws_byte(s[0]) {
        Ok(ws_end(s, 0))
    } else {
        Err(Some(ErrorKind::Alt))
    }
}

proof fn lemma_ws_end(s: Seq<u8>, i: int)
    requires
        0 <= i <= s.len(),
    ensures
        i <= ws_end(s, i) <= s.len(),
        forall|k: int| i <= k < ws_end(s, i) ==> is_ws_byte(#[trigger] s[k]),
    decreases s.len() - i,
{
    if i < s.len() && is_ws_byte(s[i]) {
        lemma_ws_end(s, i + 1);
    }
}

proof fn lemma_line_end(s: Seq<u8>, i: int)
    requires
        0 <= i <= s.len(),
    ensures
        i <= line_end(s, i) <= s.len(),
    decreases s.len() - i,
{
    if i < s.len() && s[i] != 10 {
        lemma_line_end(s, i + 1);
    }
}

proof fn lemma_close_at(s: Seq<u8>, i: int)
    requires
        0 <= i,
    ensures
        close_at(s, i) matches Some(k) ==> i <= k && k + 1 < s.len(),
    decreases s.len() - i,
{
    if i + 1 < s.len() && !(s[i] == 42 && s[i + 1] == 47) {
        lemma_close_at(s, i + 1);
    }
}

/// A piece of whitespace is never empty and never longer than the input.
pub proof fn lemma_whitespace_len(s: Seq<u8>)
    ensures
        spec_whitespace(s) matches Ok(n) ==> 1 <= n <= s.len(),
{
    if s.len() > 1 && s[0] == 47 {
        lemma_line_end(s, 2);
        lemma_close_at(s, 2);
    }
    if s.len() > 0 {
        lemma_ws_end(s, 0);
        lemma_ws_end(s, 1);
    }
}

fn scan_ws(s: &[u8], i: usize) -> (r: usize)
    requires
        i <= s@.len(),
    ensures
        r == ws_end(s@, i as int),
    decreases s@.len() - i,
{
    let mut k = i;
    while k < s.len() && (s[k] == 32 || s[k] == 9 || s[k] == 13 || s[k] == 10 || s[k] == 12)
        invariant
            i <= k <= s@.len(),
            ws_end(s@, i as int) == ws_end(s@, k as int),
        decreases s@.len() - k,
    {
        k = k + 1;
    }
    k
}

fn scan_line(s: &[u8], i: usize) -> (r: usize)
    requires
        i <= s@.len(),
    ensures
        r == line_end(s@, i as int),
{
    let mut k = i;
    while k < s.len() && s[k] != 10
        invariant
            i <= k <= s@.len(),
            line_end(s@, i as int) == line_end(s@, k as int),
        decreases s@.len() - k,
    {
        k = k + 1;
    }
    k
}

fn find_close(s: &[u8], i: usize) -> (r: Option<usize>)
    requires
        i <= s@.len(),
    ensures
        r matches Some(k) ==> close_at(s@, i as int) == Some(k as int),
        r is None ==> close_at(s@, i as int) is None,
{
    let mut k = i;
    while k < s.len() && k + 1 < s.len()
        invariant
            i <= k <= s@.len(),
            close_at(s@, i as int) == close_at(s@, k as int),
        decreases s@.len() - k,
    {
        if s[k] == 42 && s[k + 1] == 47 {
            return Some(k);
        }
        k = k + 1;
    }
    None
}

/// One piece of whitespace at the start of the input: its rest, and the piece.
pub fn whitespace<'a>(input: Input<'a>) -> (r: PResult<'a, Input<'a>>)
    ensures
        match r {
            Ok((rest, piece)) => spec_whitespace(input@) matches Ok(n) && piece@ == input@.take(n)
                && rest@ == input@.skip(n),
            Err(e) => spec_whitespace(input@) == Err::<int, Option<ErrorKind>>(failure_of(e)) && (
            e matches PErr::Error(at, _) ==> at@ == input@),
        },
{
    let s = input.0;
    proof {
        lemma_whitespace_len(s@);
    }
    let n = if s.len() == 0 {
        return Err(PErr::Incomplete);
    } else if s[0] == 47 {
        if s.len() == 1 {
            return Err(PErr::Incomplete);
        } else if s[1] == 47 {
            let e = scan_line(s, 2);
            if e < s.len() {
                e + 1
            } else {
                e
            }
        } else if s[1] == 42 {
            match find_close(s, 2) {
                Some(k) => k + 2,
                None => return Err(PErr::Incomplete),
            }
        } else {
            return Err(PErr::Error(input, ErrorKind::Alt));
        }
    } else if s[0] == 32 || s[0] == 9 || s[0] == 13 || s[0] == 10 || s[0] == 12 {
        scan_ws(s, 0)
    } else {
        return Err(PErr::Error(input, ErrorKind::Alt));
    };
    let piece = vstd::slice::slice_subrange(s, 0, n);
    let rest = vstd::slice::slice_subrange(s, n, s.len());
    proof {
        assert(piece@ =~= s@.take(n as int));
        assert(rest@ =~= s@.skip(n as int));
    }
    Ok((Input(rest), Input(piece)))
}

/// The pieces of whitespace at the start of `s`, taken one after the other while there are any.
pub open spec fn ws_pieces(s: Seq<u8>) -> Seq<Seq<u8>>
    decreases s.len(),
{
    match spec_whitespace(s) {
        Ok(n) => if 1 <= n <= s.len() {
            seq![s.take(n)] + ws_pieces(s.skip(n))
        } else {
            seq![]
        },
        Err(_) => seq![],
    }
}

/// What is left of `s` after its leading pieces of whitespace.
pub open spec fn ws_rest(s: Seq<u8>) -> Seq<u8>
    decreases s.len(),
{
    match spec_whitespace(s) {
        Ok(n) => if 1 <= n <= s.len() {
            ws_rest(s.skip(n))
        } else {
            s
        },
        Err(_) => s,
    }
}

/// All pieces of whitespace at the start of the input, possibly none; this never fails.
pub fn multispace0<'a>(input: Input<'a>) -> (r: PResult<'a, Vec<Input<'a>>>)
    ensures
        r matches Ok((rest, pieces)) && rest@ == ws_rest(input@) && pieces@.map_values(
            |p: Input<'a>| p@,
        ) == ws_pieces(input@),
{
    let mut rest = input;
    let mut pieces: Vec<Input<'a>> = Vec::new();
    let ghost mut done: Seq<Seq<u8>> = Seq::empty();
    loop
        invariant
            ws_pieces(input@) == done + ws_pieces(rest@),
            ws_rest(input@) == ws_rest(rest@),
            pieces@.map_values(|p: Input<'a>| p@) == done,
        decreases rest@.len(),
    {
        proof {
            lemma_whitespace_len(rest@);
        }
        match whitespace(rest) {
            Ok((next, piece)) => {
                proof {
                    assert(ws_pieces(rest@) == seq![piece@] + ws_pieces(next@));
                    assert(done + ws_pieces(rest@) =~= done.push(piece@) + ws_pieces(next@));
                }
                pieces.push(piece);
                proof {
                    done = done.push(piece@);
                    assert(pieces@.map_values(|p: Input<'a>| p@) =~= done);
                }
                rest = next;
            },
            Err(_) => {
                proof {
                    assert(ws_pieces(rest@) =~= Seq::<Seq<u8>>::empty());
                    assert(ws_pieces(input@) =~= done);
                }
                return Ok((rest, pieces));
            },
        }
    }
}

} // verus!
