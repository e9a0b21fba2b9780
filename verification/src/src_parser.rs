//! The rules of `.src` files: which lines name files, what kind of file an entry is, and
//! which paths are new. Reading files and resolving globs is left to the caller.
use crate::lexer::{eq_ignore_ascii_case, eq_ignore_case};
use vstd::prelude::*;

verus! {

/// The index of the first `\n` of `s` at or after `i`, or the length of `s`.
pub open spec fn line_break(s: Seq<char>, i: int) -> int
    decreases s.len() - i,
{
    if i < 0 || i >= s.len() || s[i] == '\n' {
        i
    } else {
        line_break(s, i + 1)
    }
}

/// A line without the `\r` it may end with.
pub open spec fn strip_cr(line: Seq<char>) -> Seq<char> {
    if line.len() > 0 && line.last() == '\r' {
        line.drop_last()
    } else {
        line
    }
}

/// The lines of `s` from index `i` on: each ends before a `\n`, which is dropped with a
/// `\r` just before it; the last line need not end with `\n`, and no empty line follows a
/// final `\n`.
pub open spec fn lines_from(s: Seq<char>, i: int) -> Seq<Seq<char>>
    decreases s.len() - i,
{
    if i < 0 || i >= s.len() {
        seq![]
    } else {
        proof {
            lemma_line_break(s, i);
        }
        let e = line_break(s, i);
        let line = s.subrange(i, e);
        if e < s.len() {
            seq![strip_cr(line)] + lines_from(s, e + 1)
        } else {
            seq![line]
        }
    }
}

pub proof fn lemma_line_break(s: Seq<char>, i: int)
    requires
        0 <= i,
    ensures
        i <= s.len() ==> i <= line_break(s, i) <= s.len(),
    decreases s.len() - i,
{
    if i < s.len() && s[i] != '\n' {
        lemma_line_break(s, i + 1);
    }
}

/// The lines of a text, as std's `str::lines` splits it.
pub open spec fn text_lines(s: Seq<char>) -> Seq<Seq<char>> {
    lines_from(s, 0)
}

/// Whether a character has the Unicode property `White_Space`, which is what std's
/// `char::is_whitespace` and `str::trim` go by.
pub open spec fn is_white_space(c: char) -> bool {
    let n = c as int;
    ||| 9 <= n <= 13
    ||| n == 32
    ||| n == 0x85
    ||| n == 0xA0
    ||| n == 0x1680
    ||| 0x2000 <= n <= 0x200A
    ||| n == 0x2028
    ||| n == 0x2029
    ||| n == 0x202F
    ||| n == 0x205F
    ||| n == 0x3000
}

/// The first index at or after `i` whose character is no white space, or the length.
pub open spec fn lead(s: Seq<char>, i: int) -> int
    decreases s.len() - i,
{
    if 0 <= i < s.len() && is_white_space(s[i]) {
        lead(s, i + 1)
    } else {
        i
    }
}

/// The end of `s.subrange(lo, j)` once white space at its end is dropped.
pub open spec fn trail(s: Seq<char>, lo: int, j: int) -> int
    decreases j - lo,
{
    if lo < j && is_white_space(s[j - 1]) {
        trail(s, lo, j - 1)
    } else {
        j
    }
}

/// A text without the white space at its start and its end, as std's `str::trim` gives it.
pub open spec fn trimmed(s: Seq<char>) -> Seq<char> {
    let a = lead(s, 0);
    s.subrange(a, trail(s, a, s.len() as int))
}

/// The lines of a text, by std's `str::lines`: split at `\n`, a `\r` before it dropped.
#[verifier::external_body]
fn lines_of(s: &str) -> (r: Vec<&str>)
    ensures
        r@.map_values(|l: &str| l@) == text_lines(s@),
{
    s.lines().collect()
}

/// A text without leading and trailing white space (the Unicode `White_Space` property),
/// by std's `str::trim`.
#[verifier::external_body]
fn trim(s: &str) -> (r: &str)
    ensures
        r@ == trimmed(s@),
{
    s.trim()
}

/// An empty text has no lines, so it names no file.
pub proof fn lemma_empty_text_has_no_entries()
    ensures
        spec_entries(Seq::<char>::empty()) == Seq::<Seq<char>>::empty(),
{
    assert(text_lines(Seq::<char>::empty()) =~= Seq::<Seq<char>>::empty());
}

proof fn lemma_entries_of_lines_add(x: Seq<Seq<char>>, y: Seq<Seq<char>>)
    ensures
        entries_of_lines(x + y) == entries_of_lines(x) + entries_of_lines(y),
    decreases y.len(),
{
    if y.len() == 0 {
        assert(x + y =~= x);
        assert(entries_of_lines(x) + entries_of_lines(y) =~= entries_of_lines(x));
    } else {
        assert((x + y).drop_last() =~= x + y.drop_last());
        assert((x + y).last() == y.last());
        lemma_entries_of_lines_add(x, y.drop_last());
        let a = entries_of_lines(x);
        let b = entries_of_lines(y.drop_last());
        let t = trimmed(y.last());
        assert((a + b).push(t) =~= a + b.push(t));
    }
}

proof fn lemma_line_break_shift(s: Seq<char>, t: Seq<char>, j: int)
    requires
        0 <= j <= t.len(),
    ensures
        line_break(s + t, s.len() + j) == s.len() + line_break(t, j),
    decreases t.len() - j,
{
    if j < t.len() {
        assert((s + t)[s.len() + j] == t[j]);
        if t[j] != '\n' {
            lemma_line_break_shift(s, t, j + 1);
        }
    }
}

proof fn lemma_lines_shift(s: Seq<char>, t: Seq<char>, j: int)
    requires
        0 <= j,
    ensures
        lines_from(s + t, s.len() + j) == lines_from(t, j),
    decreases t.len() - j,
{
    if j < t.len() {
        lemma_line_break_shift(s, t, j);
        lemma_line_break(t, j);
        let e = line_break(t, j);
        assert((s + t).subrange(s.len() + j, s.len() + e) =~= t.subrange(j, e));
        if e < t.len() {
            lemma_lines_shift(s, t, e + 1);
        }
    }
}

proof fn lemma_line_break_prefix(a: Seq<char>, t: Seq<char>, i: int)
    requires
        a.len() > 0,
        a.last() == '\n',
        0 <= i < a.len(),
    ensures
        line_break(a + t, i) == line_break(a, i),
        i <= line_break(a, i) < a.len(),
    decreases a.len() - i,
{
    assert((a + t)[i] == a[i]);
    if a[i] != '\n' {
        lemma_line_break_prefix(a, t, i + 1);
    }
}

proof fn lemma_lines_prefix(a: Seq<char>, t: Seq<char>, i: int)
    requires
        a.len() > 0,
        a.last() == '\n',
        0 <= i <= a.len(),
    ensures
        lines_from(a + t, i) == lines_from(a, i) + lines_from(t, 0),
    decreases a.len() - i,
{
    if i == a.len() {
        lemma_lines_shift(a, t, 0);
        assert(lines_from(a, i) + lines_from(t, 0) =~= lines_from(t, 0));
    } else {
        lemma_line_break_prefix(a, t, i);
        let e = line_break(a, i);
        assert((a + t).subrange(i, e) =~= a.subrange(i, e));
        lemma_lines_prefix(a, t, e + 1);
        let first = seq![strip_cr(a.subrange(i, e))];
        assert(first + (lines_from(a, e + 1) + lines_from(t, 0)) =~= (first + lines_from(a, e + 1))
            + lines_from(t, 0));
    }
}

proof fn lemma_line_break_no_newline(l: Seq<char>, r: Seq<char>, j: int)
    requires
        0 <= j <= l.len(),
        !l.contains('\n'),
        r.len() > 0,
        r[0] == '\n',
    ensures
        line_break(l + r, j) == l.len(),
    decreases l.len() - j,
{
    if j < l.len() {
        assert((l + r)[j] == l[j]);
        assert(l[j] != '\n');
        lemma_line_break_no_newline(l, r, j + 1);
    } else {
        assert((l + r)[j] == r[0]);
    }
}

/// The lines of a text after a line, when that line has no line break in it.
proof fn lemma_lines_after_one_line(l: Seq<char>, b: Seq<char>)
    requires
        !l.contains('\n'),
    ensures
        lines_from(l.push('\n') + b, 0) == seq![strip_cr(l)] + lines_from(b, 0),
{
    let m = l.push('\n');
    let r = seq!['\n'] + b;
    assert(m + b =~= l + r);
    lemma_line_break_no_newline(l, r, 0);
    assert((m + b).subrange(0, l.len() as int) =~= l);
    lemma_lines_shift(m, b, 0);
}

/// A line that names no file changes nothing where it is added: when `a` is empty or ends
/// a line, the text `a`, then `l` and a line break, then `b`, names the files `a` then `b`
/// name, provided `l` has no line break and, without a `\r` at its end and trimmed, is
/// empty or a `//` comment.
pub proof fn lemma_lines_naming_no_file_add_no_entries(a: Seq<char>, l: Seq<char>, b: Seq<char>)
    requires
        a.len() == 0 || a.last() == '\n',
        !l.contains('\n'),
        !is_entry(trimmed(strip_cr(l))),
    ensures
        spec_entries(a + (l.push('\n') + b)) == spec_entries(a + b),
{
    let m = l.push('\n');
    lemma_lines_after_one_line(l, b);
    assert(entries_of_lines(seq![strip_cr(l)]) =~= Seq::<Seq<char>>::empty()) by {
        let one = seq![strip_cr(l)];
        assert(one.drop_last() =~= Seq::<Seq<char>>::empty());
        assert(one.last() == strip_cr(l));
        assert(entries_of_lines(one.drop_last()) =~= Seq::<Seq<char>>::empty());
    }
    lemma_entries_of_lines_add(seq![strip_cr(l)], lines_from(b, 0));
    assert(entries_of_lines(lines_from(m + b, 0)) == entries_of_lines(lines_from(b, 0)));
    if a.len() == 0 {
        assert(a + (m + b) =~= m + b);
        assert(a + b =~= b);
    } else {
        lemma_lines_prefix(a, m + b, 0);
        lemma_lines_prefix(a, b, 0);
        lemma_entries_of_lines_add(lines_from(a, 0), lines_from(m + b, 0));
        lemma_entries_of_lines_add(lines_from(a, 0), lines_from(b, 0));
    }
}

/// A trimmed line names a file unless it is empty or a `//` comment.
pub open spec fn is_entry(line: Seq<char>) -> bool {
    line.len() > 0 && !(line.len() >= 2 && line[0] == '/' && line[1] == '/')
}

/// The entries of a `.src` text: its lines, trimmed, that name a file, in order.
pub open spec fn spec_entries(content: Seq<char>) -> Seq<Seq<char>> {
    entries_of_lines(text_lines(content))
}

/// The lines, trimmed, that name a file, in order.
pub open spec fn entries_of_lines(ls: Seq<Seq<char>>) -> Seq<Seq<char>>
    decreases ls.len(),
{
    if ls.len() == 0 {
        seq![]
    } else {
        let before = entries_of_lines(ls.drop_last());
        let t = trimmed(ls.last());
        if is_entry(t) {
            before.push(t)
        } else {
            before
        }
    }
}

fn starts_with_comment(t: &str) -> (b: bool)
    ensures
        b == (t@.len() >= 2 && t@[0] == '/' && t@[1] == '/'),
{
    broadcast use vstd::string::axiom_spec_iter, vstd::string::next_postcondition;

    let mut it = t.chars();
    let c1 = it.next();
    let c2 = it.next();
    match (c1, c2) {
        (Some(a), Some(b)) => a == '/' && b == '/',
        _ => false,
    }
}

/// The file entries of the text of a `.src` file.
pub fn src_entries(content: &str) -> (r: Vec<String>)
    ensures
        r@.map_values(|e: String| e@) == spec_entries(content@),
{
    let lines = lines_of(content);
    let ghost ls = text_lines(content@);
    let mut out: Vec<String> = Vec::new();
    let mut i: usize = 0;
    while i < lines.len()
        invariant
            i <= lines@.len(),
            lines@.map_values(|l: &str| l@) == ls,
            ls == text_lines(content@),
            out@.map_values(|e: String| e@) == entries_of_lines(ls.take(i as int)),
        decreases lines@.len() - i,
    {
        let ghost before = out@;
        let line = lines[i];
        assert(line@ == ls[i as int]);
        let t = trim(line);
        let keep = !t.is_empty() && !starts_with_comment(t);
        if keep {
            out.push(t.to_owned());
        }
        proof {
            let m = ls.take(i as int + 1);
            assert(m.drop_last() =~= ls.take(i as int));
            assert(m.last() == ls[i as int]);
            assert(out@.map_values(|e: String| e@) =~= entries_of_lines(m));
        }
        i += 1;
    }
    proof {
        assert(ls.take(lines@.len() as int) =~= ls);
    }
    out
}

/// The reader of `.src` file lists. Its rules are the functions of this module; reading the
/// files and resolving the globs they name is left to the caller.
pub struct SrcParser;

/// The kinds of entries in a `.src` file.
#[derive(Debug, Clone, Copy, PartialEq, Eq)]
pub enum EntryKind {
    /// Another `.src` file, whose entries are read in turn.
    Src,
    /// A script file.
    D,
}

/// The kind of an entry by its extension, ignoring ASCII case: none or `d` is a script,
/// `src` another list; any other extension is refused.
pub open spec fn spec_entry_kind(ext: Option<Seq<u8>>) -> Result<EntryKind, ()> {
    match ext {
        None => Ok(EntryKind::D),
        Some(e) => if eq_ignore_case(e, seq![115u8, 114, 99]) {
            Ok(EntryKind::Src)
        } else if eq_ignore_case(e, seq![100u8]) {
            Ok(EntryKind::D)
        } else {
            Err(())
        },
    }
}

/// The kind of an entry with the given extension, if it has one.
pub fn entry_kind(ext: Option<&[u8]>) -> (r: Result<EntryKind, ()>)
    ensures
        r == spec_entry_kind(
            match ext {
                Some(e) => Some(e@),
                None => None,
            },
        ),
{
    match ext {
        None => Ok(EntryKind::D),
        Some(e) => if eq_ignore_ascii_case(e, &[115u8, 114, 99]) {
            Ok(EntryKind::Src)
        } else if eq_ignore_ascii_case(e, &[100u8]) {
            Ok(EntryKind::D)
        } else {
            Err(())
        },
    }
}

fn same_bytes(a: &[u8], b: &[u8]) -> (r: bool)
    ensures
        r == (a@ == b@),
{
    if a.len() != b.len() {
        return false;
    }
    let mut k: usize = 0;
    while k < a.len()
        invariant
            k <= a@.len(),
            a@.len() == b@.len(),
            forall|j: int| 0 <= j < k ==> a@[j] == b@[j],
        decreases a@.len() - k,
    {
        if a[k] != b[k] {
            return false;
        }
        k += 1;
    }
    assert(a@ =~= b@);
    true
}

/// Whether a path, given by its bytes, is already in the list.
pub fn contains_path(list: &Vec<Vec<u8>>, path: &[u8]) -> (b: bool)
    ensures
        b == list@.map_values(|p: Vec<u8>| p@).contains(path@),
{
    let ghost v = list@.map_values(|p: Vec<u8>| p@);
    let mut i: usize = 0;
    while i < list.len()
        invariant
            i <= list@.len(),
            v == list@.map_values(|p: Vec<u8>| p@),
            forall|j: int| 0 <= j < i ==> v[j] != path@,
        decreases list@.len() - i,
    {
        if same_bytes(list[i].as_slice(), path) {
            assert(v[i as int] == path@);
            return true;
        }
        i += 1;
    }
    false
}

pub open spec fn paths_view(v: Seq<Vec<u8>>) -> Seq<Seq<u8>> {
    v.map_values(|p: Vec<u8>| p@)
}

/// `seen`, followed by each of `new` that is in neither, in order and once.
pub open spec fn merged_paths(seen: Seq<Seq<u8>>, new: Seq<Seq<u8>>) -> Seq<Seq<u8>>
    decreases new.len(),
{
    if new.len() == 0 {
        seen
    } else {
        let before = merged_paths(seen, new.drop_last());
        if before.contains(new.last()) {
            before
        } else {
            before.push(new.last())
        }
    }
}

/// The indices of the items of `new` that `merged_paths` adds, in order.
pub open spec fn added_indices(seen: Seq<Seq<u8>>, new: Seq<Seq<u8>>) -> Seq<int>
    decreases new.len(),
{
    if new.len() == 0 {
        seq![]
    } else {
        let before = added_indices(seen, new.drop_last());
        if merged_paths(seen, new.drop_last()).contains(new.last()) {
            before
        } else {
            before.push(new.len() - 1)
        }
    }
}

/// Adds to the paths seen so far those of `new_paths` not among them, each once and in
/// order; returns the indices in `new_paths` of those added.
pub fn add_new_paths(seen: &mut Vec<Vec<u8>>, new_paths: &Vec<Vec<u8>>) -> (added: Vec<usize>)
    ensures
        paths_view(final(seen)@) == merged_paths(paths_view(old(seen)@), paths_view(new_paths@)),
        added@.map_values(|i: usize| i as int) == added_indices(paths_view(old(seen)@), paths_view(new_paths@)),
{
    let ghost s0 = paths_view(seen@);
    let ghost nv = paths_view(new_paths@);
    let mut added: Vec<usize> = Vec::new();
    let mut k: usize = 0;
    while k < new_paths.len()
        invariant
            k <= new_paths@.len(),
            nv == paths_view(new_paths@),
            s0 == paths_view(old(seen)@),
            paths_view(seen@) == merged_paths(s0, nv.take(k as int)),
            added@.map_values(|i: usize| i as int) == added_indices(s0, nv.take(k as int)),
        decreases new_paths@.len() - k,
    {
        let ghost t = nv.take(k as int + 1);
        assert(t.drop_last() =~= nv.take(k as int));
        assert(t.last() == nv[k as int]);
        let ghost before = paths_view(seen@);
        let ghost before_added = added@.map_values(|i: usize| i as int);
        if !contains_path(seen, new_paths[k].as_slice()) {
            let p = new_paths[k].clone();
            assert(p@ == nv[k as int]);
            seen.push(p);
            added.push(k);
            assert(paths_view(seen@) =~= before.push(nv[k as int]));
            assert(added@.map_values(|i: usize| i as int) =~= before_added.push(k as int));
        }
        k += 1;
    }
    assert(nv.take(new_paths@.len() as int) =~= nv);
    added
}

} // verus!
