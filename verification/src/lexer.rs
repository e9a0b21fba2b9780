//! The tokenizer: turns the bytes of a Daedalus source file into tokens with spans.
use vstd::prelude::*;

verus! {

/// The kinds of tokens. Decimal literals keep the text they were written with.
#[derive(Debug, PartialEq)]
pub enum TokenKind {
    // Comment
    Comment(String),
    // Values
    Identifier(Vec<u8>),
    Integer(i64),
    Decimal(Vec<u8>),
    StringLit(Vec<u8>),
    // Punctuation
    BracketOpen,
    BracketClose,
    SquareOpen,
    SquareClose,
    ParenOpen,
    ParenClose,
    Comma,
    Period,
    Semicolon,
    // Operators
    Plus,
    PlusAssign,
    Minus,
    MinusAssign,
    Multiply,
    MultiplyAssign,
    Divide,
    DivideAssign,
    Assign,
    Equals,
    NotEquals,
    Greater,
    GreaterEquals,
    Lower,
    LowerEquals,
    Modulo,
    Or,
    BitOr,
    And,
    BitAnd,
    ShiftLeft,
    ShiftRight,
    Not,
    BitNot,
    // Keywords
    Func,
    Class,
    Prototype,
    Instance,
    Var,
    Const,
    Return,
    Else,
    If,
    // End of File
    EOF,
}

/// The mathematical value of a token kind.
pub enum SpecTokenKind {
    Comment(Seq<char>),
    Identifier(Seq<u8>),
    Integer(i64),
    Decimal(Seq<u8>),
    StringLit(Seq<u8>),
    BracketOpen,
    BracketClose,
    SquareOpen,
    SquareClose,
    ParenOpen,
    ParenClose,
    Comma,
    Period,
    Semicolon,
    Plus,
    PlusAssign,
    Minus,
    MinusAssign,
    Multiply,
    MultiplyAssign,
    Divide,
    DivideAssign,
    Assign,
    Equals,
    NotEquals,
    Greater,
    GreaterEquals,
    Lower,
    LowerEquals,
    Modulo,
    Or,
    BitOr,
    And,
    BitAnd,
    ShiftLeft,
    ShiftRight,
    Not,
    BitNot,
    Func,
    Class,
    Prototype,
    Instance,
    Var,
    Const,
    Return,
    Else,
    If,
    EOF,
}

impl View for TokenKind {
    type V = SpecTokenKind;

    open spec fn view(&self) -> SpecTokenKind {
        match self {
            TokenKind::Comment(c) => SpecTokenKind::Comment(c@),
            TokenKind::Identifier(v) => SpecTokenKind::Identifier(v@),
            TokenKind::Integer(i) => SpecTokenKind::Integer(*i),
            TokenKind::Decimal(v) => SpecTokenKind::Decimal(v@),
            TokenKind::StringLit(v) => SpecTokenKind::StringLit(v@),
            TokenKind::BracketOpen => SpecTokenKind::BracketOpen,
            TokenKind::BracketClose => SpecTokenKind::BracketClose,
            TokenKind::SquareOpen => SpecTokenKind::SquareOpen,
            TokenKind::SquareClose => SpecTokenKind::SquareClose,
            TokenKind::ParenOpen => SpecTokenKind::ParenOpen,
            TokenKind::ParenClose => SpecTokenKind::ParenClose,
            TokenKind::Comma => SpecTokenKind::Comma,
            TokenKind::Period => SpecTokenKind::Period,
            TokenKind::Semicolon => SpecTokenKind::Semicolon,
            TokenKind::Plus => SpecTokenKind::Plus,
            TokenKind::PlusAssign => SpecTokenKind::PlusAssign,
            TokenKind::Minus => SpecTokenKind::Minus,
            TokenKind::MinusAssign => SpecTokenKind::MinusAssign,
            TokenKind::Multiply => SpecTokenKind::Multiply,
            TokenKind::MultiplyAssign => SpecTokenKind::MultiplyAssign,
            TokenKind::Divide => SpecTokenKind::Divide,
            TokenKind::DivideAssign => SpecTokenKind::DivideAssign,
            TokenKind::Assign => SpecTokenKind::Assign,
            TokenKind::Equals => SpecTokenKind::Equals,
            TokenKind::NotEquals => SpecTokenKind::NotEquals,
            TokenKind::Greater => SpecTokenKind::Greater,
            TokenKind::GreaterEquals => SpecTokenKind::GreaterEquals,
            TokenKind::Lower => SpecTokenKind::Lower,
            TokenKind::LowerEquals => SpecTokenKind::LowerEquals,
            TokenKind::Modulo => SpecTokenKind::Modulo,
            TokenKind::Or => SpecTokenKind::Or,
            TokenKind::BitOr => SpecTokenKind::BitOr,
            TokenKind::And => SpecTokenKind::And,
            TokenKind::BitAnd => SpecTokenKind::BitAnd,
            TokenKind::ShiftLeft => SpecTokenKind::ShiftLeft,
            TokenKind::ShiftRight => SpecTokenKind::ShiftRight,
            TokenKind::Not => SpecTokenKind::Not,
            TokenKind::BitNot => SpecTokenKind::BitNot,
            TokenKind::Func => SpecTokenKind::Func,
            TokenKind::Class => SpecTokenKind::Class,
            TokenKind::Prototype => SpecTokenKind::Prototype,
            TokenKind::Instance => SpecTokenKind::Instance,
            TokenKind::Var => SpecTokenKind::Var,
            TokenKind::Const => SpecTokenKind::Const,
            TokenKind::Return => SpecTokenKind::Return,
            TokenKind::Else => SpecTokenKind::Else,
            TokenKind::If => SpecTokenKind::If,
            TokenKind::EOF => SpecTokenKind::EOF,
        }
    }
}

/// A token and the byte range `(start, end)` it was read from.
#[derive(Debug, PartialEq)]
pub struct Token {
    pub kind: TokenKind,
    pub span: (usize, usize),
}

pub struct SpecToken {
    pub kind: SpecTokenKind,
    pub span: (int, int),
}

impl View for Token {
    type V = SpecToken;

    open spec fn view(&self) -> SpecToken {
        SpecToken { kind: self.kind@, span: (self.span.0 as int, self.span.1 as int) }
    }
}

/// What std's `{:?}` writes for a text: the text in quotes, with escapes.
pub uninterp spec fn str_debug(s: Seq<char>) -> Seq<char>;

/// A text as `{:?}` writes it, by std's `Debug` of `str`; the result depends on the text alone.
#[verifier::external_body]
fn quoted(s: &str) -> (r: String)
    ensures
        r@ == str_debug(s@),
{
    format!("{:?}", s)
}

pub open spec fn digit_text(d: int) -> Seq<char> {
    if d == 0 {
        "0"@
    } else if d == 1 {
        "1"@
    } else if d == 2 {
        "2"@
    } else if d == 3 {
        "3"@
    } else if d == 4 {
        "4"@
    } else if d == 5 {
        "5"@
    } else if d == 6 {
        "6"@
    } else if d == 7 {
        "7"@
    } else if d == 8 {
        "8"@
    } else {
        "9"@
    }
}

/// The decimal digits of a natural number.
pub open spec fn natural_text(n: nat) -> Seq<char>
    decreases n,
{
    if n < 10 {
        digit_text(n as int)
    } else {
        natural_text(n / 10) + digit_text((n % 10) as int)
    }
}

/// An integer in decimal, with `-` in front when it is negative.
pub open spec fn integer_text(i: int) -> Seq<char> {
    if i < 0 {
        "-"@ + natural_text((-i) as nat)
    } else {
        natural_text(i as nat)
    }
}

fn digit_str(d: u64) -> (s: &'static str)
    requires
        d < 10,
    ensures
        s@ == digit_text(d as int),
{
    if d == 0 {
        "0"
    } else if d == 1 {
        "1"
    } else if d == 2 {
        "2"
    } else if d == 3 {
        "3"
    } else if d == 4 {
        "4"
    } else if d == 5 {
        "5"
    } else if d == 6 {
        "6"
    } else if d == 7 {
        "7"
    } else if d == 8 {
        "8"
    } else {
        "9"
    }
}

fn natural_string(n: u64) -> (s: String)
    ensures
        s@ == natural_text(n as nat),
    decreases n,
{
    if n < 10 {
        digit_str(n).to_owned()
    } else {
        let front = natural_string(n / 10);
        crate::ppa::errors::concat(front.as_str(), digit_str(n % 10))
    }
}

/// An integer in decimal.
pub fn integer_string(i: i64) -> (s: String)
    ensures
        s@ == integer_text(i as int),
{
    if i < 0 {
        let m: u64 = if i == i64::MIN {
            9223372036854775808
        } else {
            (-i) as u64
        };
        let digits = natural_string(m);
        crate::ppa::errors::concat("-", digits.as_str())
    } else {
        natural_string(i as u64)
    }
}

/// Texts joined by `, `.
pub open spec fn join(parts: Seq<Seq<char>>) -> Seq<char>
    decreases parts.len(),
{
    if parts.len() == 0 {
        seq![]
    } else if parts.len() == 1 {
        parts[0]
    } else {
        join(parts.drop_last()) + ", "@ + parts.last()
    }
}

/// Bytes as `{:?}` writes them: their numbers, in brackets, separated by `, `.
pub open spec fn bytes_text(b: Seq<u8>) -> Seq<char> {
    "["@ + join(b.map_values(|x: u8| natural_text(x as nat))) + "]"@
}

pub(crate) fn join_parts(parts: &Vec<String>) -> (r: String)
    ensures
        r@ == join(parts@.map_values(|s: String| s@)),
{
    let ghost v = parts@.map_values(|s: String| s@);
    let mut acc = String::new();
    let mut k: usize = 0;
    while k < parts.len()
        invariant
            k <= parts@.len(),
            v == parts@.map_values(|s: String| s@),
            acc@ == join(v.take(k as int)),
        decreases parts@.len() - k,
    {
        assert(v.take(k as int + 1).drop_last() =~= v.take(k as int));
        assert(v.take(k as int + 1).last() == v[k as int]);
        if k == 0 {
            acc = parts[k].clone();
            assert(v.take(1) =~= seq![v[0]]);
        } else {
            let with_comma = crate::ppa::errors::concat(acc.as_str(), ", ");
            acc = crate::ppa::errors::concat(with_comma.as_str(), parts[k].as_str());
        }
        k += 1;
    }
    assert(v.take(parts@.len() as int) =~= v);
    acc
}

fn bytes_string(b: &Vec<u8>) -> (s: String)
    ensures
        s@ == bytes_text(b@),
{
    let mut parts: Vec<String> = Vec::new();
    let mut k: usize = 0;
    while k < b.len()
        invariant
            k <= b@.len(),
            parts@.map_values(|s: String| s@) == b@.take(k as int).map_values(|x: u8| natural_text(x as nat)),
        decreases b@.len() - k,
    {
        let ghost before = parts@.map_values(|s: String| s@);
        let text = natural_string(b[k] as u64);
        parts.push(text);
        assert(parts@.map_values(|s: String| s@) =~= before.push(natural_text(b@[k as int] as nat)));
        assert(parts@.map_values(|s: String| s@) =~= b@.take(k as int + 1).map_values(
            |x: u8| natural_text(x as nat),
        ));
        k += 1;
    }
    assert(b@.take(b@.len() as int) =~= b@);
    let inner = join_parts(&parts);
    let open = crate::ppa::errors::concat("[", inner.as_str());
    crate::ppa::errors::concat(open.as_str(), "]")
}

/// The name of a token kind: its variant, and its contents in parentheses, written as
/// `{:?}` writes them.
pub open spec fn spec_kind_name(k: SpecTokenKind) -> Seq<char> {
    match k {
        SpecTokenKind::Comment(c) => "Comment("@ + str_debug(c) + ")"@,
        SpecTokenKind::Identifier(v) => "Identifier("@ + bytes_text(v) + ")"@,
        SpecTokenKind::Integer(i) => "Integer("@ + integer_text(i as int) + ")"@,
        SpecTokenKind::Decimal(v) => "Decimal("@ + utf8_lossy(v) + ")"@,
        SpecTokenKind::StringLit(v) => "StringLit("@ + bytes_text(v) + ")"@,
        SpecTokenKind::BracketOpen => "BracketOpen"@,
        SpecTokenKind::BracketClose => "BracketClose"@,
        SpecTokenKind::SquareOpen => "SquareOpen"@,
        SpecTokenKind::SquareClose => "SquareClose"@,
        SpecTokenKind::ParenOpen => "ParenOpen"@,
        SpecTokenKind::ParenClose => "ParenClose"@,
        SpecTokenKind::Comma => "Comma"@,
        SpecTokenKind::Period => "Period"@,
        SpecTokenKind::Semicolon => "Semicolon"@,
        SpecTokenKind::Plus => "Plus"@,
        SpecTokenKind::PlusAssign => "PlusAssign"@,
        SpecTokenKind::Minus => "Minus"@,
        SpecTokenKind::MinusAssign => "MinusAssign"@,
        SpecTokenKind::Multiply => "Multiply"@,
        SpecTokenKind::MultiplyAssign => "MultiplyAssign"@,
        SpecTokenKind::Divide => "Divide"@,
        SpecTokenKind::DivideAssign => "DivideAssign"@,
        SpecTokenKind::Assign => "Assign"@,
        SpecTokenKind::Equals => "Equals"@,
        SpecTokenKind::NotEquals => "NotEquals"@,
        SpecTokenKind::Greater => "Greater"@,
        SpecTokenKind::GreaterEquals => "GreaterEquals"@,
        SpecTokenKind::Lower => "Lower"@,
        SpecTokenKind::LowerEquals => "LowerEquals"@,
        SpecTokenKind::Modulo => "Modulo"@,
        SpecTokenKind::Or => "Or"@,
        SpecTokenKind::BitOr => "BitOr"@,
        SpecTokenKind::And => "And"@,
        SpecTokenKind::BitAnd => "BitAnd"@,
        SpecTokenKind::ShiftLeft => "ShiftLeft"@,
        SpecTokenKind::ShiftRight => "ShiftRight"@,
        SpecTokenKind::Not => "Not"@,
        SpecTokenKind::BitNot => "BitNot"@,
        SpecTokenKind::Func => "Func"@,
        SpecTokenKind::Class => "Class"@,
        SpecTokenKind::Prototype => "Prototype"@,
        SpecTokenKind::Instance => "Instance"@,
        SpecTokenKind::Var => "Var"@,
        SpecTokenKind::Const => "Const"@,
        SpecTokenKind::Return => "Return"@,
        SpecTokenKind::Else => "Else"@,
        SpecTokenKind::If => "If"@,
        SpecTokenKind::EOF => "EOF"@,
    }
}

fn wrapped(name: &str, inner: &str) -> (s: String)
    ensures
        s@ == name@ + inner@ + ")"@,
{
    let a = crate::ppa::errors::concat(name, inner);
    crate::ppa::errors::concat(a.as_str(), ")")
}

/// The name of a token kind.
pub fn kind_name(k: &TokenKind) -> (s: String)
    ensures
        s@ == spec_kind_name(k@),
{
    match k {
        TokenKind::Comment(c) => wrapped("Comment(", quoted(c.as_str()).as_str()),
        TokenKind::Identifier(v) => wrapped("Identifier(", bytes_string(v).as_str()),
        TokenKind::Integer(i) => wrapped("Integer(", integer_string(*i).as_str()),
        TokenKind::Decimal(v) => wrapped("Decimal(", printable(v.as_slice()).as_str()),
        TokenKind::StringLit(v) => wrapped("StringLit(", bytes_string(v).as_str()),
        TokenKind::BracketOpen => "BracketOpen".to_owned(),
        TokenKind::BracketClose => "BracketClose".to_owned(),
        TokenKind::SquareOpen => "SquareOpen".to_owned(),
        TokenKind::SquareClose => "SquareClose".to_owned(),
        TokenKind::ParenOpen => "ParenOpen".to_owned(),
        TokenKind::ParenClose => "ParenClose".to_owned(),
        TokenKind::Comma => "Comma".to_owned(),
        TokenKind::Period => "Period".to_owned(),
        TokenKind::Semicolon => "Semicolon".to_owned(),
        TokenKind::Plus => "Plus".to_owned(),
        TokenKind::PlusAssign => "PlusAssign".to_owned(),
        TokenKind::Minus => "Minus".to_owned(),
        TokenKind::MinusAssign => "MinusAssign".to_owned(),
        TokenKind::Multiply => "Multiply".to_owned(),
        TokenKind::MultiplyAssign => "MultiplyAssign".to_owned(),
        TokenKind::Divide => "Divide".to_owned(),
        TokenKind::DivideAssign => "DivideAssign".to_owned(),
        TokenKind::Assign => "Assign".to_owned(),
        TokenKind::Equals => "Equals".to_owned(),
        TokenKind::NotEquals => "NotEquals".to_owned(),
        TokenKind::Greater => "Greater".to_owned(),
        TokenKind::GreaterEquals => "GreaterEquals".to_owned(),
        TokenKind::Lower => "Lower".to_owned(),
        TokenKind::LowerEquals => "LowerEquals".to_owned(),
        TokenKind::Modulo => "Modulo".to_owned(),
        TokenKind::Or => "Or".to_owned(),
        TokenKind::BitOr => "BitOr".to_owned(),
        TokenKind::And => "And".to_owned(),
        TokenKind::BitAnd => "BitAnd".to_owned(),
        TokenKind::ShiftLeft => "ShiftLeft".to_owned(),
        TokenKind::ShiftRight => "ShiftRight".to_owned(),
        TokenKind::Not => "Not".to_owned(),
        TokenKind::BitNot => "BitNot".to_owned(),
        TokenKind::Func => "Func".to_owned(),
        TokenKind::Class => "Class".to_owned(),
        TokenKind::Prototype => "Prototype".to_owned(),
        TokenKind::Instance => "Instance".to_owned(),
        TokenKind::Var => "Var".to_owned(),
        TokenKind::Const => "Const".to_owned(),
        TokenKind::Return => "Return".to_owned(),
        TokenKind::Else => "Else".to_owned(),
        TokenKind::If => "If".to_owned(),
        TokenKind::EOF => "EOF".to_owned(),
    }
}

/// What std's `str::to_uppercase` gives for a text.
pub uninterp spec fn uppercase(s: Seq<char>) -> Seq<char>;

/// A text with each line break written as a backslash and an `n`.
pub open spec fn escape_newlines(s: Seq<char>) -> Seq<char>
    decreases s.len(),
{
    if s.len() == 0 {
        seq![]
    } else {
        escape_newlines(s.drop_last()) + if s.last() == '\n' {
            seq!['\\', 'n']
        } else {
            seq![s.last()]
        }
    }
}

/// A text in upper case, by std's `str::to_uppercase`; the result depends on the text alone.
#[verifier::external_body]
fn to_upper(s: &str) -> (r: String)
    ensures
        r@ == uppercase(s@),
{
    s.to_uppercase()
}

/// A text with its line breaks escaped, by std's `str::replace`.
#[verifier::external_body]
fn escape_line_breaks(s: &str) -> (r: String)
    ensures
        r@ == escape_newlines(s@),
{
    s.replace('\n', "\\n")
}

/// How a token is shown to the user.
pub open spec fn spec_stringified(k: SpecTokenKind) -> Seq<char> {
    match k {
        SpecTokenKind::Comment(c) => "// "@ + escape_newlines(c),
        SpecTokenKind::Identifier(id) => uppercase(utf8_lossy(id)),
        SpecTokenKind::StringLit(b) => "\""@ + utf8_lossy(b) + "\""@,
        _ => uppercase(spec_kind_name(k)),
    }
}

impl Token {
    /// The token as it is shown to the user: comments after `// ` with their line breaks
    /// escaped, identifiers in upper case, strings in quotes, and every other kind by its
    /// name in upper case.
    pub fn stringified(&self) -> (s: String)
        ensures
            s@ == spec_stringified(self.kind@),
    {
        match &self.kind {
            TokenKind::Comment(c) => {
                let escaped = escape_line_breaks(c.as_str());
                crate::ppa::errors::concat("// ", escaped.as_str())
            },
            TokenKind::Identifier(id) => {
                let text = printable(id.as_slice());
                to_upper(text.as_str())
            },
            TokenKind::StringLit(b) => {
                let text = printable(b.as_slice());
                let open = crate::ppa::errors::concat("\"", text.as_str());
                crate::ppa::errors::concat(open.as_str(), "\"")
            },
            _ => {
                let name = kind_name(&self.kind);
                to_upper(name.as_str())
            },
        }
    }
}

impl Clone for TokenKind {
    fn clone(&self) -> (r: Self)
        ensures
            r@ == self@,
    {
        let r = match self {
            TokenKind::Comment(c) => TokenKind::Comment(c.clone()),
            TokenKind::Identifier(v) => TokenKind::Identifier(v.clone()),
            TokenKind::Integer(i) => TokenKind::Integer(*i),
            TokenKind::Decimal(v) => TokenKind::Decimal(v.clone()),
            TokenKind::StringLit(v) => TokenKind::StringLit(v.clone()),
            TokenKind::BracketOpen => TokenKind::BracketOpen,
            TokenKind::BracketClose => TokenKind::BracketClose,
            TokenKind::SquareOpen => TokenKind::SquareOpen,
            TokenKind::SquareClose => TokenKind::SquareClose,
            TokenKind::ParenOpen => TokenKind::ParenOpen,
            TokenKind::ParenClose => TokenKind::ParenClose,
            TokenKind::Comma => TokenKind::Comma,
            TokenKind::Period => TokenKind::Period,
            TokenKind::Semicolon => TokenKind::Semicolon,
            TokenKind::Plus => TokenKind::Plus,
            TokenKind::PlusAssign => TokenKind::PlusAssign,
            TokenKind::Minus => TokenKind::Minus,
            TokenKind::MinusAssign => TokenKind::MinusAssign,
            TokenKind::Multiply => TokenKind::Multiply,
            TokenKind::MultiplyAssign => TokenKind::MultiplyAssign,
            TokenKind::Divide => TokenKind::Divide,
            TokenKind::DivideAssign => TokenKind::DivideAssign,
            TokenKind::Assign => TokenKind::Assign,
            TokenKind::Equals => TokenKind::Equals,
            TokenKind::NotEquals => TokenKind::NotEquals,
            TokenKind::Greater => TokenKind::Greater,
            TokenKind::GreaterEquals => TokenKind::GreaterEquals,
            TokenKind::Lower => TokenKind::Lower,
            TokenKind::LowerEquals => TokenKind::LowerEquals,
            TokenKind::Modulo => TokenKind::Modulo,
            TokenKind::Or => TokenKind::Or,
            TokenKind::BitOr => TokenKind::BitOr,
            TokenKind::And => TokenKind::And,
            TokenKind::BitAnd => TokenKind::BitAnd,
            TokenKind::ShiftLeft => TokenKind::ShiftLeft,
            TokenKind::ShiftRight => TokenKind::ShiftRight,
            TokenKind::Not => TokenKind::Not,
            TokenKind::BitNot => TokenKind::BitNot,
            TokenKind::Func => TokenKind::Func,
            TokenKind::Class => TokenKind::Class,
            TokenKind::Prototype => TokenKind::Prototype,
            TokenKind::Instance => TokenKind::Instance,
            TokenKind::Var => TokenKind::Var,
            TokenKind::Const => TokenKind::Const,
            TokenKind::Return => TokenKind::Return,
            TokenKind::Else => TokenKind::Else,
            TokenKind::If => TokenKind::If,
            TokenKind::EOF => TokenKind::EOF,
        };
        proof {
            match self {
                TokenKind::Identifier(v) => {
                    assert(r@ == self@);
                },
                _ => {},
            }
        }
        r
    }
}

impl Clone for Token {
    fn clone(&self) -> (r: Self)
        ensures
            r@ == self@,
    {
        Token { kind: self.kind.clone(), span: self.span }
    }
}

pub open spec fn tokens_view(toks: Seq<Token>) -> Seq<SpecToken> {
    toks.map_values(|t: Token| t@)
}

/// Why the input could not be tokenized.
#[derive(Debug, Clone, Copy, PartialEq, Eq)]
pub enum LexErrorKind {
    /// A byte that starts no token.
    IllegalCharacter(u8),
    /// An integer literal that does not fit in an `i64`.
    IntegerTooLarge,
    /// A `"` that is the last byte of the input.
    StringTooShort,
    /// A string literal without its closing `"`.
    UnterminatedString,
}

/// The error of a failed tokenization.
#[derive(Debug, Clone, Copy, PartialEq, Eq)]
pub struct LexerError {
    pub kind: LexErrorKind,
}

/// The result of decoding bytes as UTF-8, with invalid sequences replaced.
pub uninterp spec fn utf8_lossy(bytes: Seq<u8>) -> Seq<char>;

/// Calls `String::from_utf8_lossy`. Claimed: the result is a function of the bytes alone.
#[verifier::external_body]
pub(crate) fn printable(data: &[u8]) -> (s: String)
    ensures
        s@ == utf8_lossy(data@),
{
    String::from_utf8_lossy(data).into_owned()
}

// ------------------------------------------------------------------
// Byte classes and runs
// ------------------------------------------------------------------

/// The classes of bytes that a token may continue with.
#[derive(Clone, Copy)]
pub enum ByteClass {
    Whitespace,
    Digit,
    IdentTail,
    NotLineEnd,
    NotQuote,
}

pub open spec fn is_digit(b: u8) -> bool {
    48 <= b <= 57
}

pub open spec fn is_alpha(b: u8) -> bool {
    (65 <= b <= 90) || (97 <= b <= 122)
}

/// Bytes an identifier may start with.
pub open spec fn is_ident_begin(b: u8) -> bool {
    is_alpha(b) || b == 95 || is_digit(b)
}

/// Bytes an identifier may continue with: also `^`, `@` and the German umlauts of Latin-1.
pub open spec fn is_ident_tail(b: u8) -> bool {
    is_ident_begin(b) || b == 94 || b == 64 || b == 0xC4 || b == 0xE4 || b == 0xD6 || b == 0xF6
        || b == 0xFC || b == 0xDC || b == 0xDF
}

pub open spec fn in_class(c: ByteClass, b: u8) -> bool {
    match c {
        ByteClass::Whitespace => b == 32 || b == 9 || b == 10 || b == 13,
        ByteClass::Digit => is_digit(b),
        ByteClass::IdentTail => is_ident_tail(b),
        ByteClass::NotLineEnd => b != 13 && b != 10,
        ByteClass::NotQuote => b != 34,
    }
}

/// The index of the first byte at or after `i` that is not in class `c` (or the length).
pub open spec fn run_end(s: Seq<u8>, i: int, c: ByteClass) -> int
    decreases s.len() - i,
{
    if 0 <= i < s.len() && in_class(c, s[i]) {
        run_end(s, i + 1, c)
    } else {
        i
    }
}

pub proof fn lemma_run_end(s: Seq<u8>, i: int, c: ByteClass)
    requires
        0 <= i,
    ensures
        i <= run_end(s, i, c),
        i <= s.len() ==> run_end(s, i, c) <= s.len(),
        forall|k: int| i <= k < run_end(s, i, c) ==> in_class(c, #[trigger] s[k]),
        run_end(s, i, c) < s.len() ==> !in_class(c, s[run_end(s, i, c)]),
    decreases s.len() - i,
{
    if 0 <= i < s.len() && in_class(c, s[i]) {
        lemma_run_end(s, i + 1, c);
    }
}

pub fn class_contains(c: ByteClass, b: u8) -> (r: bool)
    ensures
        r == in_class(c, b),
{
    match c {
        ByteClass::Whitespace => b == 32 || b == 9 || b == 10 || b == 13,
        ByteClass::Digit => 48 <= b && b <= 57,
        ByteClass::IdentTail => (65 <= b && b <= 90) || (97 <= b && b <= 122) || b == 95 || (48
            <= b && b <= 57) || b == 94 || b == 64 || b == 0xC4 || b == 0xE4 || b == 0xD6 || b
            == 0xF6 || b == 0xFC || b == 0xDC || b == 0xDF,
        ByteClass::NotLineEnd => b != 13 && b != 10,
        ByteClass::NotQuote => b != 34,
    }
}

/// Scans forward from `start` over bytes of class `c`.
pub fn scan(data: &[u8], start: usize, c: ByteClass) -> (end: usize)
    requires
        start <= data.len(),
    ensures
        end as int == run_end(data@, start as int, c),
        start <= end <= data.len(),
{
    let mut j = start;
    while j < data.len() && class_contains(c, data[j])
        invariant
            start <= j <= data.len(),
            run_end(data@, start as int, c) == run_end(data@, j as int, c),
        decreases data.len() - j,
    {
        j += 1;
    }
    j
}

/// The number of leading whitespace bytes (space, tab, newline, carriage return).
pub fn skip_whitespace(data: &[u8]) -> (n: usize)
    ensures
        n as int == run_end(data@, 0, ByteClass::Whitespace),
{
    scan(data, 0, ByteClass::Whitespace)
}

// ------------------------------------------------------------------
// Specification of single tokens
// ------------------------------------------------------------------

pub open spec fn at(s: Seq<u8>, i: int, b: u8) -> bool {
    0 <= i < s.len() && s[i] == b
}

pub open spec fn lower(b: u8) -> u8 {
    if 65 <= b <= 90 {
        (b + 32) as u8
    } else {
        b
    }
}

/// ASCII case-insensitive equality of byte strings.
pub open spec fn eq_ignore_case(a: Seq<u8>, b: Seq<u8>) -> bool {
    a.len() == b.len() && forall|k: int| 0 <= k < a.len() ==> lower(#[trigger] a[k]) == lower(b[k])
}

pub open spec fn keyword_text(k: SpecTokenKind) -> Seq<u8> {
    match k {
        SpecTokenKind::Func => seq![102u8, 117, 110, 99],
        SpecTokenKind::Class => seq![99u8, 108, 97, 115, 115],
        SpecTokenKind::Prototype => seq![112u8, 114, 111, 116, 111, 116, 121, 112, 101],
        SpecTokenKind::Instance => seq![105u8, 110, 115, 116, 97, 110, 99, 101],
        SpecTokenKind::Var => seq![118u8, 97, 114],
        SpecTokenKind::Const => seq![99u8, 111, 110, 115, 116],
        SpecTokenKind::Return => seq![114u8, 101, 116, 117, 114, 110],
        SpecTokenKind::Else => seq![101u8, 108, 115, 101],
        SpecTokenKind::If => seq![105u8, 102],
        _ => seq![],
    }
}

/// The keyword that a name spells, in any case: func, class, prototype, instance, var,
/// const, return, else, if.
pub open spec fn keyword_kind(name: Seq<u8>) -> Option<SpecTokenKind> {
    if eq_ignore_case(name, keyword_text(SpecTokenKind::Func)) {
        Some(SpecTokenKind::Func)
    } else if eq_ignore_case(name, keyword_text(SpecTokenKind::Class)) {
        Some(SpecTokenKind::Class)
    } else if eq_ignore_case(name, keyword_text(SpecTokenKind::Prototype)) {
        Some(SpecTokenKind::Prototype)
    } else if eq_ignore_case(name, keyword_text(SpecTokenKind::Instance)) {
        Some(SpecTokenKind::Instance)
    } else if eq_ignore_case(name, keyword_text(SpecTokenKind::Var)) {
        Some(SpecTokenKind::Var)
    } else if eq_ignore_case(name, keyword_text(SpecTokenKind::Const)) {
        Some(SpecTokenKind::Const)
    } else if eq_ignore_case(name, keyword_text(SpecTokenKind::Return)) {
        Some(SpecTokenKind::Return)
    } else if eq_ignore_case(name, keyword_text(SpecTokenKind::Else)) {
        Some(SpecTokenKind::Else)
    } else if eq_ignore_case(name, keyword_text(SpecTokenKind::If)) {
        Some(SpecTokenKind::If)
    } else {
        None
    }
}

/// The value of the decimal digits `s[i..j]`.
pub open spec fn digits_value(s: Seq<u8>, i: int, j: int) -> int
    decreases j - i,
{
    if j <= i {
        0
    } else {
        digits_value(s, i, j - 1) * 10 + (s[j - 1] - 48)
    }
}

/// A number starting at `i`: digits, optionally one `.` and more digits.
pub open spec fn spec_number(s: Seq<u8>, i: int) -> Result<(SpecTokenKind, int), LexErrorKind> {
    let d = run_end(s, i, ByteClass::Digit);
    if at(s, d, 46) {
        let e = run_end(s, d + 1, ByteClass::Digit);
        Ok((SpecTokenKind::Decimal(s.subrange(i, e)), e - i))
    } else if digits_value(s, i, d) <= i64::MAX {
        Ok((SpecTokenKind::Integer(digits_value(s, i, d) as i64), d - i))
    } else {
        Err(LexErrorKind::IntegerTooLarge)
    }
}

/// A string literal starting with the `"` at `i`; it holds the bytes up to the next `"`.
pub open spec fn spec_string(s: Seq<u8>, i: int) -> Result<(SpecTokenKind, int), LexErrorKind> {
    if s.len() - i <= 1 {
        Err(LexErrorKind::StringTooShort)
    } else {
        let e = run_end(s, i + 1, ByteClass::NotQuote);
        if e >= s.len() {
            Err(LexErrorKind::UnterminatedString)
        } else {
            Ok((SpecTokenKind::StringLit(s.subrange(i + 1, e)), e - i + 1))
        }
    }
}

/// An identifier or keyword starting at `i`.
pub open spec fn spec_identifier(s: Seq<u8>, i: int) -> Result<(SpecTokenKind, int), LexErrorKind> {
    if !is_ident_begin(s[i]) {
        Err(LexErrorKind::IllegalCharacter(s[i]))
    } else {
        let e = run_end(s, i + 1, ByteClass::IdentTail);
        match keyword_kind(s.subrange(i, e)) {
            Some(k) => Ok((k, e - i)),
            None => Ok((SpecTokenKind::Identifier(s.subrange(i, e)), e - i)),
        }
    }
}

/// A `//` comment starting at `i`: it runs to the end of the line.
pub open spec fn spec_line_comment(s: Seq<u8>, i: int) -> (SpecTokenKind, int) {
    let e = run_end(s, i + 2, ByteClass::NotLineEnd);
    (SpecTokenKind::Comment(utf8_lossy(s.subrange(i + 2, e))), e - i)
}

/// The index of the `*` of the first `*/` at or after `k`, or the last index if there is none.
pub open spec fn comment_close(s: Seq<u8>, k: int) -> int
    decreases s.len() - k,
{
    if k < 0 || k + 1 >= s.len() {
        k
    } else if s[k] == 42 && s[k + 1] == 47 {
        k
    } else {
        comment_close(s, k + 1)
    }
}

/// A `/* */` comment starting at `i`. Without a closing `*/` its length reaches one byte
/// past the end of the input.
pub open spec fn spec_block_comment(s: Seq<u8>, i: int) -> (SpecTokenKind, int) {
    let k = comment_close(s, i + 2);
    (SpecTokenKind::Comment(utf8_lossy(s.subrange(i + 2, k))), k - i + 2)
}

/// A one or two byte operator: `two` if the next byte is `second`, `one` otherwise.
pub open spec fn spec_pair(
    s: Seq<u8>,
    i: int,
    second: u8,
    two: SpecTokenKind,
    one: SpecTokenKind,
) -> Result<(SpecTokenKind, int), LexErrorKind> {
    if at(s, i + 1, second) {
        Ok((two, 2))
    } else {
        Ok((one, 1))
    }
}

/// The token at index `i` of `s` and its length.
pub open spec fn spec_extract(s: Seq<u8>, i: int) -> Result<(SpecTokenKind, int), LexErrorKind> {
    let b = s[i];
    if b == 123 {
        Ok((SpecTokenKind::BracketOpen, 1))
    } else if b == 125 {
        Ok((SpecTokenKind::BracketClose, 1))
    } else if b == 91 {
        Ok((SpecTokenKind::SquareOpen, 1))
    } else if b == 93 {
        Ok((SpecTokenKind::SquareClose, 1))
    } else if b == 40 {
        Ok((SpecTokenKind::ParenOpen, 1))
    } else if b == 41 {
        Ok((SpecTokenKind::ParenClose, 1))
    } else if b == 44 {
        Ok((SpecTokenKind::Comma, 1))
    } else if b == 46 {
        Ok((SpecTokenKind::Period, 1))
    } else if b == 59 {
        Ok((SpecTokenKind::Semicolon, 1))
    } else if b == 37 {
        Ok((SpecTokenKind::Modulo, 1))
    } else if b == 126 {
        Ok((SpecTokenKind::BitNot, 1))
    } else if is_digit(b) {
        spec_number(s, i)
    } else if b == 47 {
        // '/'
        if at(s, i + 1, 61) {
            Ok((SpecTokenKind::DivideAssign, 2))
        } else if at(s, i + 1, 47) {
            Ok(spec_line_comment(s, i))
        } else if s.len() - i > 3 && at(s, i + 1, 42) {
            Ok(spec_block_comment(s, i))
        } else {
            Ok((SpecTokenKind::Divide, 1))
        }
    } else if b == 43 {
        spec_pair(s, i, 61, SpecTokenKind::PlusAssign, SpecTokenKind::Plus)
    } else if b == 45 {
        spec_pair(s, i, 61, SpecTokenKind::MinusAssign, SpecTokenKind::Minus)
    } else if b == 42 {
        spec_pair(s, i, 61, SpecTokenKind::MultiplyAssign, SpecTokenKind::Multiply)
    } else if b == 61 {
        spec_pair(s, i, 61, SpecTokenKind::Equals, SpecTokenKind::Assign)
    } else if b == 33 {
        spec_pair(s, i, 61, SpecTokenKind::NotEquals, SpecTokenKind::Not)
    } else if b == 38 {
        spec_pair(s, i, 38, SpecTokenKind::And, SpecTokenKind::BitAnd)
    } else if b == 124 {
        spec_pair(s, i, 124, SpecTokenKind::Or, SpecTokenKind::BitOr)
    } else if b == 62 {
        // '>'
        if at(s, i + 1, 61) {
            Ok((SpecTokenKind::GreaterEquals, 2))
        } else if at(s, i + 1, 62) {
            Ok((SpecTokenKind::ShiftRight, 2))
        } else {
            Ok((SpecTokenKind::Greater, 1))
        }
    } else if b == 60 {
        // '<'
        if at(s, i + 1, 61) {
            Ok((SpecTokenKind::LowerEquals, 2))
        } else if at(s, i + 1, 60) {
            Ok((SpecTokenKind::ShiftLeft, 2))
        } else {
            Ok((SpecTokenKind::Lower, 1))
        }
    } else if b == 34 {
        spec_string(s, i)
    } else {
        spec_identifier(s, i)
    }
}

pub proof fn lemma_comment_close(s: Seq<u8>, k: int)
    requires
        0 <= k,
    ensures
        k <= comment_close(s, k),
        k + 1 < s.len() ==> comment_close(s, k) < s.len(),
    decreases s.len() - k,
{
    if !(k < 0 || k + 1 >= s.len()) && !(s[k] == 42 && s[k + 1] == 47) {
        lemma_comment_close(s, k + 1);
    }
}

/// Every token is at least one byte long and ends at most one byte past the input.
pub proof fn lemma_extract_len(s: Seq<u8>, i: int)
    requires
        0 <= i < s.len(),
    ensures
        spec_extract(s, i) matches Ok((_, l)) ==> 1 <= l <= s.len() - i + 1,
{
    lemma_run_end(s, i, ByteClass::Digit);
    let d = run_end(s, i, ByteClass::Digit);
    if d + 1 >= 0 {
        lemma_run_end(s, d + 1, ByteClass::Digit);
    }
    lemma_run_end(s, i + 1, ByteClass::NotQuote);
    lemma_run_end(s, i + 1, ByteClass::IdentTail);
    lemma_run_end(s, i + 2, ByteClass::NotLineEnd);
    lemma_comment_close(s, i + 2);
}

/// The operators of two bytes: `/=`, `+=`, `-=`, `*=`, `==`, `!=`, `&&`, `||`, `>=`, `>>`,
/// `<=`, `<<`.
pub open spec fn two_byte_operator(a: u8, b: u8) -> Option<SpecTokenKind> {
    if a == 47 && b == 61 {
        Some(SpecTokenKind::DivideAssign)
    } else if a == 43 && b == 61 {
        Some(SpecTokenKind::PlusAssign)
    } else if a == 45 && b == 61 {
        Some(SpecTokenKind::MinusAssign)
    } else if a == 42 && b == 61 {
        Some(SpecTokenKind::MultiplyAssign)
    } else if a == 61 && b == 61 {
        Some(SpecTokenKind::Equals)
    } else if a == 33 && b == 61 {
        Some(SpecTokenKind::NotEquals)
    } else if a == 38 && b == 38 {
        Some(SpecTokenKind::And)
    } else if a == 124 && b == 124 {
        Some(SpecTokenKind::Or)
    } else if a == 62 && b == 61 {
        Some(SpecTokenKind::GreaterEquals)
    } else if a == 62 && b == 62 {
        Some(SpecTokenKind::ShiftRight)
    } else if a == 60 && b == 61 {
        Some(SpecTokenKind::LowerEquals)
    } else if a == 60 && b == 60 {
        Some(SpecTokenKind::ShiftLeft)
    } else {
        None
    }
}

/// The operators of one byte that also begin a longer operator: `/ + - * = ! & | > <`.
pub open spec fn one_byte_operator(a: u8) -> Option<SpecTokenKind> {
    if a == 47 {
        Some(SpecTokenKind::Divide)
    } else if a == 43 {
        Some(SpecTokenKind::Plus)
    } else if a == 45 {
        Some(SpecTokenKind::Minus)
    } else if a == 42 {
        Some(SpecTokenKind::Multiply)
    } else if a == 61 {
        Some(SpecTokenKind::Assign)
    } else if a == 33 {
        Some(SpecTokenKind::Not)
    } else if a == 38 {
        Some(SpecTokenKind::BitAnd)
    } else if a == 124 {
        Some(SpecTokenKind::BitOr)
    } else if a == 62 {
        Some(SpecTokenKind::Greater)
    } else if a == 60 {
        Some(SpecTokenKind::Lower)
    } else {
        None
    }
}

/// A two byte operator is read whole, as one token of length 2: the longest match wins,
/// so `>>=` begins with `>>`.
pub proof fn lemma_two_byte_operators(s: Seq<u8>, i: int)
    requires
        0 <= i,
        i + 1 < s.len(),
        two_byte_operator(s[i], s[i + 1]) is Some,
    ensures
        spec_extract(s, i) == Ok::<(SpecTokenKind, int), LexErrorKind>(
            (two_byte_operator(s[i], s[i + 1])->0, 2),
        ),
{
}

/// A byte that begins an operator, not followed by a byte that makes a two byte operator
/// (nor, after `/`, by `/` or `*`, which begin comments), is read as its one byte operator.
pub proof fn lemma_one_byte_operators(s: Seq<u8>, i: int)
    requires
        0 <= i < s.len(),
        one_byte_operator(s[i]) is Some,
        i + 1 < s.len() ==> two_byte_operator(s[i], s[i + 1]) is None,
        s[i] == 47 && i + 1 < s.len() ==> s[i + 1] != 47 && s[i + 1] != 42,
    ensures
        spec_extract(s, i) == Ok::<(SpecTokenKind, int), LexErrorKind>(
            (one_byte_operator(s[i])->0, 1),
        ),
{
}

// ------------------------------------------------------------------
// Specification of the whole input
// ------------------------------------------------------------------

pub open spec fn prepend_tokens(
    front: Seq<SpecToken>,
    r: Result<Seq<SpecToken>, LexErrorKind>,
) -> Result<Seq<SpecToken>, LexErrorKind> {
    match r {
        Ok(rest) => Ok(front + rest),
        Err(e) => Err(e),
    }
}

/// The tokens of `s` from index `i` on, where `offset` is the position `i` is reported at.
/// Whitespace between tokens is skipped, and the list ends with an `EOF` token.
pub open spec fn spec_lex(s: Seq<u8>, i: int, offset: int) -> Result<Seq<SpecToken>, LexErrorKind>
    decreases s.len() - i,
    when 0 <= i
{
    let j = run_end(s, i, ByteClass::Whitespace);
    let start = offset + (j - i);
    if j >= s.len() {
        Ok(seq![SpecToken { kind: SpecTokenKind::EOF, span: (start, start) }])
    } else {
        match spec_extract(s, j) {
            Err(e) => Err(e),
            Ok((kind, len)) => {
                proof {
                    lemma_run_end(s, i, ByteClass::Whitespace);
                    lemma_extract_len(s, j);
                }
                let next = if len < s.len() - j {
                    j + len
                } else {
                    s.len() as int
                };
                prepend_tokens(
                    seq![SpecToken { kind, span: (start, start + len) }],
                    spec_lex(s, next, start + len),
                )
            },
        }
    }
}

/// A space, tab, newline or carriage return where a token may begin is skipped: lexing from
/// it gives what lexing from the next byte gives, one position further on.
pub proof fn lemma_whitespace_is_skipped(s: Seq<u8>, i: int, offset: int)
    requires
        0 <= i < s.len(),
        s[i] == 32u8 || s[i] == 9u8 || s[i] == 10u8 || s[i] == 13u8,
    ensures
        spec_lex(s, i, offset) == spec_lex(s, i + 1, offset + 1),
{
    assert(run_end(s, i, ByteClass::Whitespace) == run_end(s, i + 1, ByteClass::Whitespace));
}

/// Each keyword is recognised in any mix of upper and lower case: `func`, `class`,
/// `prototype`, `instance`, `var`, `const`, `return`, `else` and `if`.
pub proof fn lemma_keywords_in_any_case(name: Seq<u8>)
    ensures
        eq_ignore_case(name, seq![102u8, 117, 110, 99]) ==> keyword_kind(name) == Some(SpecTokenKind::Func),
        eq_ignore_case(name, seq![99u8, 108, 97, 115, 115]) ==> keyword_kind(name) == Some(
            SpecTokenKind::Class,
        ),
        eq_ignore_case(name, seq![112u8, 114, 111, 116, 111, 116, 121, 112, 101]) ==> keyword_kind(name)
            == Some(SpecTokenKind::Prototype),
        eq_ignore_case(name, seq![105u8, 110, 115, 116, 97, 110, 99, 101]) ==> keyword_kind(name) == Some(
            SpecTokenKind::Instance,
        ),
        eq_ignore_case(name, seq![118u8, 97, 114]) ==> keyword_kind(name) == Some(SpecTokenKind::Var),
        eq_ignore_case(name, seq![99u8, 111, 110, 115, 116]) ==> keyword_kind(name) == Some(
            SpecTokenKind::Const,
        ),
        eq_ignore_case(name, seq![114u8, 101, 116, 117, 114, 110]) ==> keyword_kind(name) == Some(
            SpecTokenKind::Return,
        ),
        eq_ignore_case(name, seq![101u8, 108, 115, 101]) ==> keyword_kind(name) == Some(SpecTokenKind::Else),
        eq_ignore_case(name, seq![105u8, 102]) ==> keyword_kind(name) == Some(SpecTokenKind::If),
{
    // Keywords of equal length differ, ignoring case, in one of their first three bytes.
    let first = seq![lower(name[0]), lower(name[1]), lower(name[2])];
    assert(first.len() == 3);
}

/// A run of bytes of class `c` from `i` that stops at `e` ends at `e`.
proof fn lemma_run_end_at(s: Seq<u8>, i: int, e: int, c: ByteClass)
    requires
        0 <= i <= e <= s.len(),
        forall|k: int| i <= k < e ==> in_class(c, #[trigger] s[k]),
        e < s.len() ==> !in_class(c, s[e]),
    ensures
        run_end(s, i, c) == e,
    decreases e - i,
{
    if i < e {
        lemma_run_end_at(s, i + 1, e, c);
    }
}

/// A word begins with a letter or `_` and goes on over the letters, the digits, `_`, `^`,
/// `@` and the Latin-1 umlauts `Ä ä Ö ö Ü ü ß`, up to the first other byte. It is read
/// whole: as the keyword it spells, in any case, or else as an identifier.
pub proof fn lemma_words_are_read_whole(s: Seq<u8>, i: int, e: int)
    requires
        0 <= i < e <= s.len(),
        (65 <= s[i] <= 90) || (97 <= s[i] <= 122) || s[i] == 95,
        forall|k: int|
            i < k < e ==> {
                let b = #[trigger] s[k];
                (65 <= b <= 90) || (97 <= b <= 122) || (48 <= b <= 57) || b == 95 || b == 94 || b
                    == 64 || b == 0xC4 || b == 0xE4 || b == 0xD6 || b == 0xF6 || b == 0xDC || b
                    == 0xFC || b == 0xDF
            },
        e < s.len() ==> {
            let b = s[e];
            !((65 <= b <= 90) || (97 <= b <= 122) || (48 <= b <= 57) || b == 95 || b == 94 || b
                == 64 || b == 0xC4 || b == 0xE4 || b == 0xD6 || b == 0xF6 || b == 0xDC || b == 0xFC
                || b == 0xDF)
        },
    ensures
        spec_extract(s, i) == Ok::<(SpecTokenKind, int), LexErrorKind>(
            (
                match keyword_kind(s.subrange(i, e)) {
                    Some(k) => k,
                    None => SpecTokenKind::Identifier(s.subrange(i, e)),
                },
                e - i,
            ),
        ),
{
    lemma_run_end_at(s, i + 1, e, ByteClass::IdentTail);
}

/// A number is read whole: its digits, and where a `.` follows them, the `.` and the digits
/// after it as a decimal; otherwise the integer the digits spell in base ten, where it fits
/// in 64 bits.
pub proof fn lemma_numbers_are_read_whole(s: Seq<u8>, i: int, d: int)
    requires
        0 <= i < d <= s.len(),
        forall|k: int| i <= k < d ==> 48 <= #[trigger] s[k] <= 57,
        d < s.len() ==> !(48 <= s[d] <= 57),
        d == s.len() || s[d] != 46,
    ensures
        spec_extract(s, i) == (if digits_value(s, i, d) <= i64::MAX {
            Ok::<(SpecTokenKind, int), LexErrorKind>(
                (SpecTokenKind::Integer(digits_value(s, i, d) as i64), d - i),
            )
        } else {
            Err(LexErrorKind::IntegerTooLarge)
        }),
{
    lemma_run_end_at(s, i, d, ByteClass::Digit);
}

proof fn lemma_extract_not_eof(s: Seq<u8>, i: int)
    requires
        0 <= i < s.len(),
    ensures
        spec_extract(s, i) matches Ok((k, _)) ==> !(k is EOF),
{
}

/// Every successful tokenization ends with exactly one `EOF` token, its last.
pub proof fn lemma_lex_ends_with_eof(s: Seq<u8>, i: int, offset: int)
    requires
        0 <= i,
    ensures
        spec_lex(s, i, offset) matches Ok(t) ==> t.len() > 0 && t.last().kind is EOF && (forall|k: int|
            0 <= k < t.len() - 1 ==> !(#[trigger] t[k].kind is EOF)),
    decreases s.len() - i,
{
    lemma_run_end(s, i, ByteClass::Whitespace);
    let j = run_end(s, i, ByteClass::Whitespace);
    let start = offset + (j - i);
    if j < s.len() {
        lemma_extract_len(s, j);
        lemma_extract_not_eof(s, j);
        match spec_extract(s, j) {
            Err(_) => {},
            Ok((kind, len)) => {
                let next = if len < s.len() - j {
                    j + len
                } else {
                    s.len() as int
                };
                lemma_lex_ends_with_eof(s, next, start + len);
                match spec_lex(s, next, start + len) {
                    Ok(rest) => {
                        let front = seq![SpecToken { kind, span: (start, start + len) }];
                        assert((front + rest).last() == rest.last());
                        assert forall|k: int| 0 <= k < (front + rest).len() - 1 implies !(#[trigger] (
                        front + rest)[k].kind is EOF) by {
                            if k > 0 {
                                assert((front + rest)[k] == rest[k - 1]);
                            }
                        }
                    },
                    Err(_) => {},
                }
            },
        }
    }
}

/// The spans of the tokens lie in order and do not overlap: each starts where or after the
/// one before it ended, none starts before `offset`, and none ends more than one byte past
/// the end of the input.
pub proof fn lemma_lex_spans_in_order(s: Seq<u8>, i: int, offset: int)
    requires
        0 <= i <= s.len(),
    ensures
        spec_lex(s, i, offset) matches Ok(t) ==> {
            &&& forall|k: int|
                0 <= k < t.len() ==> offset <= (#[trigger] t[k]).span.0 <= t[k].span.1 <= offset + (
                s.len() - i) + 1
            &&& forall|k: int|
                0 <= k < t.len() - 1 ==> (#[trigger] t[k]).span.1 <= t[k + 1].span.0
        },
    decreases s.len() - i,
{
    lemma_run_end(s, i, ByteClass::Whitespace);
    let j = run_end(s, i, ByteClass::Whitespace);
    let start = offset + (j - i);
    if j < s.len() {
        lemma_extract_len(s, j);
        match spec_extract(s, j) {
            Err(_) => {},
            Ok((kind, len)) => {
                let next = if len < s.len() - j {
                    j + len
                } else {
                    s.len() as int
                };
                lemma_lex_spans_in_order(s, next, start + len);
                if next == s.len() {
                    lemma_run_end(s, next, ByteClass::Whitespace);
                }
                match spec_lex(s, next, start + len) {
                    Ok(rest) => {
                        let front = seq![SpecToken { kind, span: (start, start + len) }];
                        let t = front + rest;
                        assert forall|k: int| 0 <= k < t.len() implies offset <= (#[trigger] t[k]).span.0
                            <= t[k].span.1 <= offset + (s.len() - i) + 1 by {
                            if k > 0 {
                                assert(t[k] == rest[k - 1]);
                            }
                        }
                        assert forall|k: int| 0 <= k < t.len() - 1 implies (#[trigger] t[k]).span.1
                            <= t[k + 1].span.0 by {
                            assert(t[k + 1] == rest[k]);
                            if k > 0 {
                                assert(t[k] == rest[k - 1]);
                            }
                        }
                    },
                    Err(_) => {},
                }
            },
        }
    }
}

// ------------------------------------------------------------------
// Executable tokenizer
// ------------------------------------------------------------------

pub open spec fn token_result_view(r: Result<(TokenKind, usize), LexErrorKind>) -> Result<
    (SpecTokenKind, int),
    LexErrorKind,
> {
    match r {
        Ok((k, l)) => Ok((k@, l as int)),
        Err(e) => Err(e),
    }
}

fn ascii_lower(b: u8) -> (r: u8)
    ensures
        r == lower(b),
{
    if 65 <= b && b <= 90 {
        b + 32
    } else {
        b
    }
}

/// ASCII case-insensitive comparison of two byte strings.
pub fn eq_ignore_ascii_case(a: &[u8], b: &[u8]) -> (r: bool)
    ensures
        r == eq_ignore_case(a@, b@),
{
    if a.len() != b.len() {
        return false;
    }
    let mut k: usize = 0;
    while k < a.len()
        invariant
            a.len() == b.len(),
            k <= a.len(),
            forall|m: int| 0 <= m < k ==> lower(#[trigger] a@[m]) == lower(b@[m]),
        decreases a.len() - k,
    {
        if ascii_lower(a[k]) != ascii_lower(b[k]) {
            return false;
        }
        k += 1;
    }
    true
}

fn keyword_of(name: &[u8]) -> (r: Option<TokenKind>)
    ensures
        match r {
            Some(k) => keyword_kind(name@) == Some(k@),
            None => keyword_kind(name@) is None,
        },
{
    let func: Vec<u8> = vec![102u8, 117, 110, 99];
    let class: Vec<u8> = vec![99u8, 108, 97, 115, 115];
    let prototype: Vec<u8> = vec![112u8, 114, 111, 116, 111, 116, 121, 112, 101];
    let instance: Vec<u8> = vec![105u8, 110, 115, 116, 97, 110, 99, 101];
    let var: Vec<u8> = vec![118u8, 97, 114];
    let cnst: Vec<u8> = vec![99u8, 111, 110, 115, 116];
    let ret: Vec<u8> = vec![114u8, 101, 116, 117, 114, 110];
    let els: Vec<u8> = vec![101u8, 108, 115, 101];
    let iff: Vec<u8> = vec![105u8, 102];
    assert(func@ == keyword_text(SpecTokenKind::Func));
    assert(class@ == keyword_text(SpecTokenKind::Class));
    assert(prototype@ == keyword_text(SpecTokenKind::Prototype));
    assert(instance@ == keyword_text(SpecTokenKind::Instance));
    assert(var@ == keyword_text(SpecTokenKind::Var));
    assert(cnst@ == keyword_text(SpecTokenKind::Const));
    assert(ret@ == keyword_text(SpecTokenKind::Return));
    assert(els@ == keyword_text(SpecTokenKind::Else));
    assert(iff@ == keyword_text(SpecTokenKind::If));
    if eq_ignore_ascii_case(name, func.as_slice()) {
        Some(TokenKind::Func)
    } else if eq_ignore_ascii_case(name, class.as_slice()) {
        Some(TokenKind::Class)
    } else if eq_ignore_ascii_case(name, prototype.as_slice()) {
        Some(TokenKind::Prototype)
    } else if eq_ignore_ascii_case(name, instance.as_slice()) {
        Some(TokenKind::Instance)
    } else if eq_ignore_ascii_case(name, var.as_slice()) {
        Some(TokenKind::Var)
    } else if eq_ignore_ascii_case(name, cnst.as_slice()) {
        Some(TokenKind::Const)
    } else if eq_ignore_ascii_case(name, ret.as_slice()) {
        Some(TokenKind::Return)
    } else if eq_ignore_ascii_case(name, els.as_slice()) {
        Some(TokenKind::Else)
    } else if eq_ignore_ascii_case(name, iff.as_slice()) {
        Some(TokenKind::If)
    } else {
        None
    }
}

fn tokenize_identifier(data: &[u8], i: usize) -> (r: Result<(TokenKind, usize), LexErrorKind>)
    requires
        i < data.len(),
    ensures
        token_result_view(r) == spec_identifier(data@, i as int),
{
    let first = data[i];
    if !((65 <= first && first <= 90) || (97 <= first && first <= 122) || first == 95 || (48
        <= first && first <= 57)) {
        return Err(LexErrorKind::IllegalCharacter(first));
    }
    let e = scan(data, i + 1, ByteClass::IdentTail);
    let name = &data[i..e];
    match keyword_of(name) {
        Some(k) => Ok((k, e - i)),
        None => {
            let v = vstd::slice::slice_to_vec(name);
            Ok((TokenKind::Identifier(v), e - i))
        },
    }
}

fn tokenize_number(data: &[u8], i: usize) -> (r: Result<(TokenKind, usize), LexErrorKind>)
    requires
        i < data.len(),
        is_digit(data@[i as int]),
    ensures
        token_result_view(r) == spec_number(data@, i as int),
{
    let d = scan(data, i, ByteClass::Digit);
    proof {
        lemma_run_end(data@, i as int, ByteClass::Digit);
    }
    if d < data.len() && data[d] == 46 {
        let e = scan(data, d + 1, ByteClass::Digit);
        let v = vstd::slice::slice_to_vec(&data[i..e]);
        return Ok((TokenKind::Decimal(v), e - i));
    }
    let mut value: i64 = 0;
    let mut k = i;
    while k < d
        invariant
            i <= k <= d,
            d as int == run_end(data@, i as int, ByteClass::Digit),
            d <= data.len(),
            !at(data@, d as int, 46),
            forall|m: int| i <= m < d ==> is_digit(#[trigger] data@[m]),
            value as int == digits_value(data@, i as int, k as int),
            0 <= value,
        decreases d - k,
    {
        let digit = (data[k] - 48) as i64;
        match value.checked_mul(10) {
            Some(m) => match m.checked_add(digit) {
                Some(v) => {
                    value = v;
                },
                None => {
                    proof {
                        assert(digits_value(data@, i as int, k as int + 1) == value * 10 + digit);
                        lemma_digits_grow(data@, i as int, k as int + 1, d as int);
                    }
                    return Err(LexErrorKind::IntegerTooLarge);
                },
            },
            None => {
                proof {
                    assert(digits_value(data@, i as int, k as int + 1) == value * 10 + digit);
                    lemma_digits_grow(data@, i as int, k as int + 1, d as int);
                }
                return Err(LexErrorKind::IntegerTooLarge);
            },
        }
        k += 1;
    }
    Ok((TokenKind::Integer(value), d - i))
}

/// The value of a digit string never shrinks when digits are appended.
pub proof fn lemma_digits_grow(s: Seq<u8>, i: int, j: int, k: int)
    requires
        i <= j <= k <= s.len(),
        forall|m: int| i <= m < k ==> is_digit(#[trigger] s[m]),
    ensures
        digits_value(s, i, j) <= digits_value(s, i, k),
        0 <= digits_value(s, i, j),
    decreases k - i,
{
    if k > j {
        lemma_digits_grow(s, i, j, k - 1);
    } else if j > i {
        lemma_digits_grow(s, i, j - 1, j - 1);
    }
}

fn tokenize_string_literal(data: &[u8], i: usize) -> (r: Result<(TokenKind, usize), LexErrorKind>)
    requires
        i < data.len(),
    ensures
        token_result_view(r) == spec_string(data@, i as int),
{
    if data.len() - i <= 1 {
        return Err(LexErrorKind::StringTooShort);
    }
    let e = scan(data, i + 1, ByteClass::NotQuote);
    if e >= data.len() {
        return Err(LexErrorKind::UnterminatedString);
    }
    let v = vstd::slice::slice_to_vec(&data[i + 1..e]);
    Ok((TokenKind::StringLit(v), e - i + 1))
}

fn tokenize_linecomment(data: &[u8], i: usize) -> (r: (TokenKind, usize))
    requires
        i + 1 < data.len(),
    ensures
        (r.0@, r.1 as int) == spec_line_comment(data@, i as int),
{
    let e = scan(data, i + 2, ByteClass::NotLineEnd);
    let text = printable(&data[i + 2..e]);
    (TokenKind::Comment(text), e - i)
}

fn tokenize_multilinecomment(data: &[u8], i: usize) -> (r: (TokenKind, usize))
    requires
        i + 3 < data.len() < usize::MAX,
    ensures
        (r.0@, r.1 as int) == spec_block_comment(data@, i as int),
{
    let mut k = i + 2;
    while k + 1 < data.len() && !(data[k] == 42 && data[k + 1] == 47)
        invariant
            i + 2 <= k < data.len(),
            comment_close(data@, (i + 2) as int) == comment_close(data@, k as int),
        decreases data.len() - k,
    {
        k += 1;
    }
    let text = printable(&data[i + 2..k]);
    (TokenKind::Comment(text), k - i + 2)
}

fn tokenize_pair(data: &[u8], i: usize, second: u8, two: TokenKind, one: TokenKind) -> (r: Result<
    (TokenKind, usize),
    LexErrorKind,
>)
    requires
        i < data.len(),
    ensures
        token_result_view(r) == spec_pair(data@, i as int, second, two@, one@),
{
    if i + 1 < data.len() && data[i + 1] == second {
        Ok((two, 2))
    } else {
        Ok((one, 1))
    }
}

/// Reads the token that starts at index `i`.
pub fn extract_token(data: &[u8], i: usize) -> (r: Result<(TokenKind, usize), LexErrorKind>)
    requires
        i < data.len() < usize::MAX,
    ensures
        token_result_view(r) == spec_extract(data@, i as int),
{
    let b = data[i];
    if b == 123 {
        Ok((TokenKind::BracketOpen, 1))
    } else if b == 125 {
        Ok((TokenKind::BracketClose, 1))
    } else if b == 91 {
        Ok((TokenKind::SquareOpen, 1))
    } else if b == 93 {
        Ok((TokenKind::SquareClose, 1))
    } else if b == 40 {
        Ok((TokenKind::ParenOpen, 1))
    } else if b == 41 {
        Ok((TokenKind::ParenClose, 1))
    } else if b == 44 {
        Ok((TokenKind::Comma, 1))
    } else if b == 46 {
        Ok((TokenKind::Period, 1))
    } else if b == 59 {
        Ok((TokenKind::Semicolon, 1))
    } else if b == 37 {
        Ok((TokenKind::Modulo, 1))
    } else if b == 126 {
        Ok((TokenKind::BitNot, 1))
    } else if 48 <= b && b <= 57 {
        tokenize_number(data, i)
    } else if b == 47 {
        if i + 1 < data.len() && data[i + 1] == 61 {
            Ok((TokenKind::DivideAssign, 2))
        } else if i + 1 < data.len() && data[i + 1] == 47 {
            Ok(tokenize_linecomment(data, i))
        } else if data.len() - i > 3 && data[i + 1] == 42 {
            Ok(tokenize_multilinecomment(data, i))
        } else {
            Ok((TokenKind::Divide, 1))
        }
    } else if b == 43 {
        tokenize_pair(data, i, 61, TokenKind::PlusAssign, TokenKind::Plus)
    } else if b == 45 {
        tokenize_pair(data, i, 61, TokenKind::MinusAssign, TokenKind::Minus)
    } else if b == 42 {
        tokenize_pair(data, i, 61, TokenKind::MultiplyAssign, TokenKind::Multiply)
    } else if b == 61 {
        tokenize_pair(data, i, 61, TokenKind::Equals, TokenKind::Assign)
    } else if b == 33 {
        tokenize_pair(data, i, 61, TokenKind::NotEquals, TokenKind::Not)
    } else if b == 38 {
        tokenize_pair(data, i, 38, TokenKind::And, TokenKind::BitAnd)
    } else if b == 124 {
        tokenize_pair(data, i, 124, TokenKind::Or, TokenKind::BitOr)
    } else if b == 62 {
        if i + 1 < data.len() && data[i + 1] == 61 {
            Ok((TokenKind::GreaterEquals, 2))
        } else if i + 1 < data.len() && data[i + 1] == 62 {
            Ok((TokenKind::ShiftRight, 2))
        } else {
            Ok((TokenKind::Greater, 1))
        }
    } else if b == 60 {
        if i + 1 < data.len() && data[i + 1] == 61 {
            Ok((TokenKind::LowerEquals, 2))
        } else if i + 1 < data.len() && data[i + 1] == 60 {
            Ok((TokenKind::ShiftLeft, 2))
        } else {
            Ok((TokenKind::Lower, 1))
        }
    } else if b == 34 {
        tokenize_string_literal(data, i)
    } else {
        tokenize_identifier(data, i)
    }
}

/// Tokenizes a whole input. The result is exactly `spec_lex` of the input.
pub fn lex(input: &[u8]) -> (r: Result<Vec<Token>, LexerError>)
    requires
        input.len() < usize::MAX,
    ensures
        match r {
            Ok(toks) => spec_lex(input@, 0, 0) == Ok::<Seq<SpecToken>, LexErrorKind>(tokens_view(toks@))
                && toks@.len() > 0 && toks@.last().kind is EOF,
            Err(e) => spec_lex(input@, 0, 0) == Err::<Seq<SpecToken>, LexErrorKind>(e.kind),
        },
{
    proof {
        lemma_lex_ends_with_eof(input@, 0, 0);
    }
    let mut tokens: Vec<Token> = Vec::new();
    let mut pos: usize = 0;
    let mut offset: usize = 0;
    assert(tokens_view(tokens@) + seq![] =~= tokens_view(tokens@));
    loop
        invariant
            pos <= input.len() < usize::MAX,
            offset == pos || (pos == input.len() && offset == pos + 1),
            match spec_lex(input@, pos as int, offset as int) {
                Ok(rest) => spec_lex(input@, 0, 0) == Ok::<Seq<SpecToken>, LexErrorKind>(tokens_view(tokens@) + rest),
                Err(e) => spec_lex(input@, 0, 0) == Err::<Seq<SpecToken>, LexErrorKind>(e),
            },
        decreases input.len() - pos,
    {
        let ws = scan(input, pos, ByteClass::Whitespace);
        proof {
            lemma_run_end(input@, pos as int, ByteClass::Whitespace);
        }
        let start = offset + (ws - pos);
        if ws >= input.len() {
            let eof = Token { kind: TokenKind::EOF, span: (start, start) };
            let ghost before = tokens@;
            tokens.push(eof);
            assert(tokens_view(tokens@) =~= tokens_view(before) + seq![eof@]);
            return Ok(tokens);
        }
        let res = extract_token(input, ws);
        proof {
            lemma_extract_len(input@, ws as int);
        }
        match res {
            Err(e) => {
                return Err(LexerError { kind: e });
            },
            Ok((kind, length)) => {
                let tok = Token { kind, span: (start, start + length) };
                let ghost before = tokens@;
                let ghost next_i: int = if length < input.len() - ws {
                    ws + length
                } else {
                    input.len() as int
                };
                let ghost rest_r = spec_lex(input@, next_i, start + length);
                assert(spec_lex(input@, pos as int, offset as int) == prepend_tokens(
                    seq![tok@],
                    rest_r,
                ));
                tokens.push(tok);
                assert(tokens_view(tokens@) =~= tokens_view(before) + seq![tok@]);
                proof {
                    match rest_r {
                        Ok(rest) => {
                            assert(tokens_view(before) + (seq![tok@] + rest) =~= tokens_view(
                                tokens@,
                            ) + rest);
                        },
                        Err(_) => {},
                    }
                }
                if length < input.len() - ws {
                    pos = ws + length;
                } else {
                    pos = input.len();
                }
                offset = start + length;
            },
        }
    }
}

} // verus!
