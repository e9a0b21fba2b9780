//! The loaded script files, and the line arithmetic that diagnostics need.
use crate::lexer::{printable, utf8_lossy, Token};
use vstd::prelude::*;
use vstd::utf8::encode_utf8;

verus! {

/// The byte offsets just after each `\n` of `b` from index `i` on.
pub open spec fn newline_starts(b: Seq<u8>, i: int) -> Seq<int>
    decreases b.len() - i,
{
    if i < 0 || i >= b.len() {
        seq![]
    } else if b[i] == 10 {
        seq![i + 1] + newline_starts(b, i + 1)
    } else {
        newline_starts(b, i + 1)
    }
}

/// The byte offset where each line of a text starts: 0, and just after each `\n`.
pub open spec fn spec_line_starts(b: Seq<u8>) -> Seq<int> {
    seq![0int] + newline_starts(b, 0)
}

pub open spec fn usizes(v: Seq<usize>) -> Seq<int> {
    v.map_values(|x: usize| x as int)
}

/// The line starts of a text, by `codespan_reporting::files::line_starts`, which yields 0
/// and the offset after each `\n` of the text's UTF-8 bytes.
#[verifier::external_body]
fn line_starts_of(source: &str) -> (r: Vec<usize>)
    ensures
        usizes(r@) == spec_line_starts(encode_utf8(source@)),
{
    codespan_reporting::files::line_starts(source).collect()
}

proof fn lemma_newline_starts(b: Seq<u8>, i: int)
    requires
        0 <= i,
    ensures
        forall|k: int|
            0 <= k < newline_starts(b, i).len() ==> i < #[trigger] newline_starts(b, i)[k] <= b.len(),
        forall|j: int, k: int|
            0 <= j < k < newline_starts(b, i).len() ==> newline_starts(b, i)[j] < newline_starts(b, i)[k],
    decreases b.len() - i,
{
    if i < b.len() {
        lemma_newline_starts(b, i + 1);
        let rest = newline_starts(b, i + 1);
        if b[i] == 10 {
            let all = seq![i + 1] + rest;
            assert forall|k: int| 0 <= k < all.len() implies i < #[trigger] all[k] <= b.len() by {
                if k > 0 {
                    assert(all[k] == rest[k - 1]);
                }
            }
            assert forall|j: int, k: int| 0 <= j < k < all.len() implies all[j] < all[k] by {
                assert(all[k] == rest[k - 1]);
                if j > 0 {
                    assert(all[j] == rest[j - 1]);
                }
            }
        }
    }
}

/// Line starts begin at 0 and rise strictly, up to the length of the text.
proof fn lemma_line_starts(b: Seq<u8>)
    ensures
        spec_line_starts(b)[0] == 0,
        forall|k: int| 0 <= k < spec_line_starts(b).len() ==> #[trigger] spec_line_starts(b)[k] <= b.len(),
        forall|j: int, k: int|
            0 <= j < k < spec_line_starts(b).len() ==> spec_line_starts(b)[j] < spec_line_starts(b)[k],
{
    lemma_newline_starts(b, 0);
    let r = newline_starts(b, 0);
    let all = spec_line_starts(b);
    assert forall|k: int| 0 <= k < all.len() implies #[trigger] all[k] <= b.len() by {
        if k > 0 {
            assert(all[k] == r[k - 1]);
        }
    }
    assert forall|j: int, k: int| 0 <= j < k < all.len() implies all[j] < all[k] by {
        assert(all[k] == r[k - 1]);
        if j > 0 {
            assert(all[j] == r[j - 1]);
        }
    }
}

/// Why a file or a line of it could not be found.
#[derive(Debug, Clone, Copy, PartialEq, Eq)]
pub enum FileError {
    /// No file has that id.
    FileMissing,
    /// The file has no line of that index; its last line is `max`.
    LineTooLarge { given: usize, max: usize },
}

/// A loaded script: its path, its bytes, the text they decode to, its tokens and where
/// its lines start.
pub struct File {
    path: Vec<u8>,
    content: Vec<u8>,
    source: String,
    tokens: Vec<Token>,
    line_starts: Vec<usize>,
}

impl File {
    #[verifier::type_invariant]
    spec fn inv(self) -> bool {
        &&& self.source@ == utf8_lossy(self.content@)
        &&& usizes(self.line_starts@) == spec_line_starts(encode_utf8(self.source@))
    }

    pub closed spec fn path_view(&self) -> Seq<u8> {
        self.path@
    }

    pub closed spec fn content_view(&self) -> Seq<u8> {
        self.content@
    }

    /// The text of the file: its bytes decoded as UTF-8, invalid sequences replaced.
    pub open spec fn text(&self) -> Seq<char> {
        utf8_lossy(self.content_view())
    }

    /// The bytes of the text.
    pub open spec fn text_bytes(&self) -> Seq<u8> {
        encode_utf8(self.text())
    }

    pub closed spec fn tokens_view(&self) -> Seq<Token> {
        self.tokens@
    }

    pub fn new(path: Vec<u8>, content: Vec<u8>, tokens: Vec<Token>) -> (f: File)
        ensures
            f.path_view() == path@,
            f.content_view() == content@,
            f.tokens_view() == tokens@,
    {
        let source = printable(content.as_slice());
        let line_starts = line_starts_of(source.as_str());
        File { path, content, source, tokens, line_starts }
    }

    pub fn path(&self) -> (p: &Vec<u8>)
        ensures
            p@ == self.path_view(),
    {
        &self.path
    }

    pub fn content(&self) -> (c: &Vec<u8>)
        ensures
            c@ == self.content_view(),
    {
        &self.content
    }

    pub fn tokens(&self) -> (t: &Vec<Token>)
        ensures
            t@ == self.tokens_view(),
    {
        &self.tokens
    }

    /// The text of the file.
    pub fn source(&self) -> (s: &String)
        ensures
            s@ == self.text(),
    {
        proof {
            use_type_invariant(self);
        }
        &self.source
    }

    /// Where line `i` starts: the offset of a line start, the length of the text just
    /// past the last line, and an error beyond that.
    pub open spec fn spec_line_start(&self, i: int) -> Result<usize, FileError> {
        let starts = spec_line_starts(self.text_bytes());
        if i < starts.len() {
            Ok(starts[i] as usize)
        } else if i == starts.len() {
            Ok(self.text_bytes().len() as usize)
        } else {
            Err(FileError::LineTooLarge { given: i as usize, max: (starts.len() - 1) as usize })
        }
    }

    /// Where line `line_index` starts.
    pub fn line_start(&self, line_index: usize) -> (r: Result<usize, FileError>)
        ensures
            r == self.spec_line_start(line_index as int),
    {
        proof {
            use_type_invariant(self);
        }
        if line_index < self.line_starts.len() {
            Ok(self.line_starts[line_index])
        } else if line_index == self.line_starts.len() {
            Ok(self.source.as_str().len())
        } else {
            Err(FileError::LineTooLarge { given: line_index, max: self.line_starts.len() - 1 })
        }
    }

    /// The line that byte `byte_index` is on: the last line that starts at or before it.
    pub fn line_index(&self, byte_index: usize) -> (r: usize)
        ensures
            ({
                let starts = spec_line_starts(self.text_bytes());
                &&& r < starts.len()
                &&& starts[r as int] <= byte_index
                &&& r + 1 < starts.len() ==> byte_index < starts[r + 1]
            }),
    {
        proof {
            use_type_invariant(self);
            lemma_line_starts(encode_utf8(self.source@));
        }
        let starts = &self.line_starts;
        proof {
            let sp = spec_line_starts(encode_utf8(self.source@));
            assert(sp.len() == starts@.len());
            assert forall|k: int| 0 <= k < starts@.len() implies #[trigger] sp[k] == starts@[k] as int by {
                assert(usizes(starts@)[k] == starts@[k] as int);
            }
            assert forall|j: int, k: int| 0 <= j < k < starts@.len() implies starts@[j] < starts@[k] by {
                assert(sp[j] < sp[k]);
            }
        }
        let mut lo: usize = 0;
        let mut hi: usize = starts.len();
        while lo + 1 < hi
            invariant
                starts == &self.line_starts,
                usizes(starts@) == spec_line_starts(encode_utf8(self.source@)),
                0 <= lo < hi <= starts@.len(),
                starts@[lo as int] <= byte_index,
                hi < starts@.len() ==> byte_index < starts@[hi as int],
                forall|j: int, k: int| 0 <= j < k < starts@.len() ==> starts@[j] < starts@[k],
            decreases hi - lo,
        {
            let mid = lo + (hi - lo) / 2;
            if starts[mid] <= byte_index {
                lo = mid;
            } else {
                hi = mid;
            }
        }
        lo
    }

    /// The byte range of line `line_index`: from its start to the start of the next line.
    pub fn line_range(&self, line_index: usize) -> (r: Result<(usize, usize), FileError>)
        requires
            line_index < usize::MAX,
        ensures
            match (self.spec_line_start(line_index as int), self.spec_line_start(line_index + 1)) {
                (Ok(a), Ok(b)) => r == Ok::<(usize, usize), FileError>((a, b)),
                (Err(e), _) => r == Err::<(usize, usize), FileError>(e),
                (Ok(_), Err(e)) => r == Err::<(usize, usize), FileError>(e),
            },
    {
        let start = match self.line_start(line_index) {
            Ok(s) => s,
            Err(e) => return Err(e),
        };
        let next = match self.line_start(line_index + 1) {
            Ok(s) => s,
            Err(e) => return Err(e),
        };
        Ok((start, next))
    }
}

/// The loaded scripts, numbered in the order they were added.
pub struct FileDb {
    files: Vec<File>,
}

impl FileDb {
    pub closed spec fn files_view(&self) -> Seq<File> {
        self.files@
    }

    pub fn new() -> (db: FileDb)
        ensures
            db.files_view().len() == 0,
    {
        FileDb { files: Vec::new() }
    }

    /// Adds a file; its id is the number of files before it.
    pub fn add(&mut self, file: File) -> (id: usize)
        ensures
            final(self).files_view() == old(self).files_view().push(file),
            id == old(self).files_view().len(),
    {
        self.files.push(file);
        self.files.len() - 1
    }

    pub fn len(&self) -> (n: usize)
        ensures
            n == self.files_view().len(),
    {
        self.files.len()
    }

    pub fn get(&self, file_id: usize) -> (f: &File)
        requires
            file_id < self.files_view().len(),
        ensures
            *f == self.files_view()[file_id as int],
    {
        &self.files[file_id]
    }

    /// The name of a file: its path, decoded. An id past the last file is missing.
    pub fn name(&self, id: usize) -> (r: Result<String, FileError>)
        requires
            id != self.files_view().len(),
        ensures
            id > self.files_view().len() ==> r == Err::<String, FileError>(FileError::FileMissing),
            id < self.files_view().len() ==> (r matches Ok(s) && s@ == utf8_lossy(
                self.files_view()[id as int].path_view(),
            )),
    {
        if id > self.files.len() {
            return Err(FileError::FileMissing);
        }
        Ok(printable(self.files[id].path().as_slice()))
    }

    /// The text of a file. An id past the last file is missing.
    pub fn source(&self, id: usize) -> (r: Result<String, FileError>)
        requires
            id != self.files_view().len(),
        ensures
            id > self.files_view().len() ==> r == Err::<String, FileError>(FileError::FileMissing),
            id < self.files_view().len() ==> (r matches Ok(s) && s@ == self.files_view()[id as int].text()),
    {
        if id > self.files.len() {
            return Err(FileError::FileMissing);
        }
        Ok(printable(self.files[id].content().as_slice()))
    }
}

} // verus!
