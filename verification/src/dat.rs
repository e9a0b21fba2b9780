//! Compiled Daedalus scripts: the `.DAT` file format. All numbers are little endian.
//! Floats are kept as the bits of their IEEE 754 encoding.
use crate::ppa::symbols::{SpecZType, zPAR_TYPE};
use crate::types::{Identifier, SpecIdentifier};
use vstd::prelude::*;

verus! {

/// What can go wrong while reading a `.DAT` file.
#[derive(Debug, Clone, Copy, PartialEq, Eq)]
pub enum DatError {
    /// The data ended in the middle of a value.
    Incomplete,
    /// A symbol has a type number that names no type.
    InvalidSymbolType(u8),
}

/// The type of a compiled symbol.
#[derive(Debug, Clone, Copy, PartialEq, Eq)]
pub enum SymbolType {
    Void,
    Float,
    Int,
    String,
    Class,
    Func,
    Prototype,
    Instance,
}

/// The type with the given number, if any.
pub open spec fn spec_symbol_type(val: int) -> Option<SymbolType> {
    if val == 0 {
        Some(SymbolType::Void)
    } else if val == 1 {
        Some(SymbolType::Float)
    } else if val == 2 {
        Some(SymbolType::Int)
    } else if val == 3 {
        Some(SymbolType::String)
    } else if val == 4 {
        Some(SymbolType::Class)
    } else if val == 5 {
        Some(SymbolType::Func)
    } else if val == 6 {
        Some(SymbolType::Prototype)
    } else if val == 7 {
        Some(SymbolType::Instance)
    } else {
        None
    }
}

/// The number of a type in the file.
pub open spec fn type_number(t: SymbolType) -> int {
    match t {
        SymbolType::Void => 0,
        SymbolType::Float => 1,
        SymbolType::Int => 2,
        SymbolType::String => 3,
        SymbolType::Class => 4,
        SymbolType::Func => 5,
        SymbolType::Prototype => 6,
        SymbolType::Instance => 7,
    }
}

impl SymbolType {
    /// The type of a script value of this symbol type; classes and prototypes have none.
    /// An instance's class is not recorded, so it is named `<inst>`.
    #[allow(non_snake_case)]
    pub fn to_zPAR_TYPE(self) -> (t: Option<zPAR_TYPE>)
        ensures
            t matches Some(z) ==> z@ == match self {
                SymbolType::Void => SpecZType::Void,
                SymbolType::Float => SpecZType::Float,
                SymbolType::Int => SpecZType::Int,
                SymbolType::String => SpecZType::String,
                SymbolType::Func => SpecZType::Func,
                _ => SpecZType::Instance(
                    SpecIdentifier { name: seq![60u8, 105, 110, 115, 116, 62], span: (0, 0) },
                ),
            },
            t is None <==> (self == SymbolType::Class || self == SymbolType::Prototype),
    {
        match self {
            SymbolType::Void => Some(zPAR_TYPE::Void),
            SymbolType::Float => Some(zPAR_TYPE::Float),
            SymbolType::Int => Some(zPAR_TYPE::Int),
            SymbolType::String => Some(zPAR_TYPE::String),
            SymbolType::Func => Some(zPAR_TYPE::Func),
            SymbolType::Instance => {
                let name: [u8; 6] = [60u8, 105, 110, 115, 116, 62];
                let id = Identifier::new(&name, (0, 0));
                assert(id@.name =~= seq![60u8, 105, 110, 115, 116, 62]);
                Some(zPAR_TYPE::Instance(id))
            },
            _ => None,
        }
    }

    /// The type with the given number, if any.
    pub fn from_u32(val: u32) -> (t: Option<Self>)
        ensures
            t == spec_symbol_type(val as int),
    {
        match val {
            0 => Some(SymbolType::Void),
            1 => Some(SymbolType::Float),
            2 => Some(SymbolType::Int),
            3 => Some(SymbolType::String),
            4 => Some(SymbolType::Class),
            5 => Some(SymbolType::Func),
            6 => Some(SymbolType::Prototype),
            7 => Some(SymbolType::Instance),
            _ => None,
        }
    }
}

/// The flags of a symbol: `Const` 1, `Return` 2, `ClassVar` 4, `External` 8, `Merged` 16.
#[derive(Debug, Clone, Copy, PartialEq, Eq)]
pub struct SymbolFlags(pub u16);

/// A string of a string constant, with the `\n` that ends it.
#[derive(Debug, PartialEq)]
pub struct DatString {
    pub data: Vec<u8>,
}

/// The contents of a symbol, by its type.
#[derive(Debug, PartialEq)]
pub enum SymbolSpecific {
    Empty,
    /// The bits of each float.
    FloatData(Vec<u32>),
    IntData(Vec<u32>),
    StringData(Vec<DatString>),
    ClassVar(u32),
    /// The address of a function, prototype or instance.
    FuncLike(u32),
}

impl SymbolSpecific {
    /// The address of a function, prototype or instance.
    pub fn get_funclike(&self) -> (r: Option<u32>)
        ensures
            r == match self {
                SymbolSpecific::FuncLike(a) => Some(*a),
                _ => None::<u32>,
            },
    {
        if let SymbolSpecific::FuncLike(addr) = self {
            Some(*addr)
        } else {
            None
        }
    }
}

/// A compiled symbol.
#[derive(Debug, PartialEq)]
pub struct DatSymbol {
    pub named: u32,
    /// The name, with the `\n` that ends it.
    pub name: Vec<u8>,
    /// The offset of a class variable, the size of a class or the return type of a function.
    pub off_cls_ret: u32,
    pub count: u16,
    pub typ: SymbolType,
    pub flags: SymbolFlags,
    pub file_index: u32,
    pub line_start: u32,
    pub line_count: u32,
    pub char_start: u32,
    pub char_count: u32,
    /// Absent for class variables.
    pub symbol_data: Option<SymbolSpecific>,
    /// `0xFFFFFFFF` for none.
    pub parent: u32,
}

/// A compiled script: its symbols and its bytecode.
#[derive(Debug, PartialEq)]
pub struct GothicDat {
    pub version: u8,
    pub num_symbols: u32,
    pub symbols_sorted: Vec<u32>,
    pub symbols: Vec<DatSymbol>,
    pub bytecode_size: u32,
    pub bytecode: Vec<u8>,
}

// ------------------------------------------------------------------
// The format
// ------------------------------------------------------------------

pub open spec fn u16_at(s: Seq<u8>, i: int) -> int {
    s[i] + 256 * s[i + 1]
}

pub open spec fn u32_at(s: Seq<u8>, i: int) -> int {
    s[i] + 256 * s[i + 1] + 65536 * s[i + 2] + 16777216 * s[i + 3]
}

/// The end of the bytes from `i` up to and including the first `\n`, if there is one.
pub open spec fn line_end(s: Seq<u8>, i: int) -> Option<int>
    decreases s.len() - i,
{
    if i < 0 || i >= s.len() {
        None
    } else if s[i] == 10 {
        Some(i + 1)
    } else {
        line_end(s, i + 1)
    }
}

/// `n` words from `i` on.
pub open spec fn words_at(s: Seq<u8>, i: int, n: int) -> Seq<u32> {
    Seq::new(n as nat, |k: int| u32_at(s, i + 4 * k) as u32)
}

/// `n` strings from `i` on, each ended by `\n`, and where they end.
pub open spec fn strings_at(s: Seq<u8>, i: int, n: int) -> Option<(Seq<Seq<u8>>, int)>
    decreases n,
{
    if n <= 0 {
        Some((seq![], i))
    } else {
        match line_end(s, i) {
            None => None,
            Some(e) => match strings_at(s, e, n - 1) {
                None => None,
                Some((rest, end)) => Some((seq![s.subrange(i, e)] + rest, end)),
            },
        }
    }
}

/// The contents of a symbol, as values.
pub enum SpecContent {
    Empty,
    FloatData(Seq<u32>),
    IntData(Seq<u32>),
    StringData(Seq<Seq<u8>>),
    ClassVar(u32),
    FuncLike(u32),
}

/// The contents of a symbol of type number `typ` with `count` values, from `i` on.
pub open spec fn content_at(s: Seq<u8>, i: int, count: int, typ: int) -> Option<(SpecContent, int)> {
    if typ == 0 {
        Some((SpecContent::Empty, i))
    } else if typ == 1 || typ == 2 {
        if i + 4 * count <= s.len() {
            let w = words_at(s, i, count);
            Some((if typ == 1 { SpecContent::FloatData(w) } else { SpecContent::IntData(w) }, i + 4 * count))
        } else {
            None
        }
    } else if typ == 3 {
        match strings_at(s, i, count) {
            None => None,
            Some((ss, e)) => Some((SpecContent::StringData(ss), e)),
        }
    } else if i + 4 <= s.len() {
        let w = u32_at(s, i) as u32;
        Some((if typ == 4 { SpecContent::ClassVar(w) } else { SpecContent::FuncLike(w) }, i + 4))
    } else {
        None
    }
}

/// A symbol, as values.
pub struct SpecSymbol {
    pub named: u32,
    pub name: Seq<u8>,
    pub off_cls_ret: u32,
    pub count: u16,
    pub typ: SymbolType,
    pub flags: u16,
    /// File index, line start, line count, char start, char count.
    pub place: Seq<u32>,
    pub data: Option<SpecContent>,
    pub parent: u32,
}

/// The symbol that starts at `i`, and where it ends. A symbol is: its `named` word; its
/// name up to `\n`; the offset word; a half word of a 12 bit count and a 4 bit type
/// number above it; a half word of flags, of which the five known bits are kept; five
/// words of where it was declared; its contents unless it is a class variable (flag 4);
/// and the word of its parent.
pub open spec fn symbol_at(s: Seq<u8>, i: int) -> Result<(SpecSymbol, int), DatError> {
    if i + 4 > s.len() {
        Err(DatError::Incomplete)
    } else {
        match line_end(s, i + 4) {
            None => Err(DatError::Incomplete),
            Some(n) => if n + 8 + 20 > s.len() {
                Err(DatError::Incomplete)
            } else {
                let bits = u16_at(s, n + 4);
                let count = bits % 4096;
                let typ = bits / 4096;
                let flags = u16_at(s, n + 6) % 32;
                match spec_symbol_type(typ) {
                    None => Err(DatError::InvalidSymbolType(typ as u8)),
                    Some(t) => {
                        let p = n + 8 + 20;
                        let content = if (flags / 4) % 2 == 1 {
                            Some((None::<SpecContent>, p))
                        } else {
                            match content_at(s, p, count, typ) {
                                None => None,
                                Some((c, e)) => Some((Some(c), e)),
                            }
                        };
                        match content {
                            None => Err(DatError::Incomplete),
                            Some((data, e)) => if e + 4 > s.len() {
                                Err(DatError::Incomplete)
                            } else {
                                Ok(
                                    (
                                        SpecSymbol {
                                            named: u32_at(s, i) as u32,
                                            name: s.subrange(i + 4, n),
                                            off_cls_ret: u32_at(s, n) as u32,
                                            count: count as u16,
                                            typ: t,
                                            flags: flags as u16,
                                            place: words_at(s, n + 8, 5),
                                            data,
                                            parent: u32_at(s, e) as u32,
                                        },
                                        e + 4,
                                    ),
                                )
                            },
                        }
                    },
                }
            },
        }
    }
}

/// `n` symbols from `i` on, and where they end; the first that cannot be read is the error.
pub open spec fn symbols_at(s: Seq<u8>, i: int, n: int) -> Result<(Seq<SpecSymbol>, int), DatError>
    decreases n,
{
    if n <= 0 {
        Ok((seq![], i))
    } else {
        match symbol_at(s, i) {
            Err(e) => Err(e),
            Ok((sym, e)) => match symbols_at(s, e, n - 1) {
                Err(x) => Err(x),
                Ok((rest, end)) => Ok((seq![sym] + rest, end)),
            },
        }
    }
}

/// A whole file, as values.
pub struct SpecDat {
    pub version: u8,
    pub num_symbols: u32,
    pub sorted: Seq<u32>,
    pub symbols: Seq<SpecSymbol>,
    pub bytecode_size: u32,
    pub bytecode: Seq<u8>,
}

/// The file at the start of `s`, and where it ends: the version byte, the number of
/// symbols, that many indices in name order, that many symbols, the size of the bytecode
/// and the bytecode.
pub open spec fn dat_at(s: Seq<u8>) -> Result<(SpecDat, int), DatError> {
    if 5 > s.len() {
        Err(DatError::Incomplete)
    } else {
        let n = u32_at(s, 1);
        if 5 + 4 * n > s.len() {
            Err(DatError::Incomplete)
        } else {
            match symbols_at(s, 5 + 4 * n, n) {
                Err(e) => Err(e),
                Ok((syms, p)) => if p + 4 > s.len() {
                    Err(DatError::Incomplete)
                } else {
                    let size = u32_at(s, p);
                    if p + 4 + size > s.len() {
                        Err(DatError::Incomplete)
                    } else {
                        Ok(
                            (
                                SpecDat {
                                    version: s[0],
                                    num_symbols: n as u32,
                                    bytecode_size: size as u32,
                                    sorted: words_at(s, 5, n),
                                    symbols: syms,
                                    bytecode: s.subrange(p + 4, p + 4 + size),
                                },
                                p + 4 + size,
                            ),
                        )
                    }
                },
            }
        }
    }
}

// ------------------------------------------------------------------
// Reading stops where the file ends
// ------------------------------------------------------------------

proof fn lemma_line_end_prefix(s: Seq<u8>, t: Seq<u8>, i: int)
    requires
        line_end(s, i) is Some,
    ensures
        line_end(s + t, i) == line_end(s, i),
        0 <= i < line_end(s, i)->0 <= s.len(),
    decreases s.len() - i,
{
    assert((s + t)[i] == s[i]);
    if s[i] != 10 {
        lemma_line_end_prefix(s, t, i + 1);
    }
}

proof fn lemma_words_prefix(s: Seq<u8>, t: Seq<u8>, i: int, n: int)
    requires
        0 <= i,
        0 <= n,
        i + 4 * n <= s.len(),
    ensures
        words_at(s + t, i, n) == words_at(s, i, n),
{
    assert forall|k: int| 0 <= k < n implies #[trigger] u32_at(s + t, i + 4 * k) == u32_at(s, i + 4 * k) by {
        assert((s + t)[i + 4 * k] == s[i + 4 * k]);
        assert((s + t)[i + 4 * k + 1] == s[i + 4 * k + 1]);
        assert((s + t)[i + 4 * k + 2] == s[i + 4 * k + 2]);
        assert((s + t)[i + 4 * k + 3] == s[i + 4 * k + 3]);
    }
    assert(words_at(s + t, i, n) =~= words_at(s, i, n));
}

proof fn lemma_u32_prefix(s: Seq<u8>, t: Seq<u8>, i: int)
    requires
        0 <= i,
        i + 4 <= s.len(),
    ensures
        u32_at(s + t, i) == u32_at(s, i),
        u16_at(s + t, i) == u16_at(s, i),
        u16_at(s + t, i + 2) == u16_at(s, i + 2),
{
    assert((s + t)[i] == s[i]);
    assert((s + t)[i + 1] == s[i + 1]);
    assert((s + t)[i + 2] == s[i + 2]);
    assert((s + t)[i + 3] == s[i + 3]);
}

proof fn lemma_strings_prefix(s: Seq<u8>, t: Seq<u8>, i: int, n: int)
    requires
        strings_at(s, i, n) is Some,
    ensures
        strings_at(s + t, i, n) == strings_at(s, i, n),
        strings_at(s, i, n).unwrap().1 <= s.len() || n <= 0,
        strings_at(s, i, n).unwrap().1 >= i,
    decreases n,
{
    if n > 0 {
        lemma_line_end_prefix(s, t, i);
        let e = line_end(s, i)->0;
        lemma_strings_prefix(s, t, e, n - 1);
        assert((s + t).subrange(i, e) =~= s.subrange(i, e));
    }
}

proof fn lemma_symbol_prefix(s: Seq<u8>, t: Seq<u8>, i: int)
    requires
        0 <= i,
        symbol_at(s, i) is Ok,
    ensures
        symbol_at(s + t, i) == symbol_at(s, i),
        i < symbol_at(s, i)->Ok_0.1 <= s.len(),
{
    let u = s + t;
    lemma_u32_prefix(s, t, i);
    lemma_line_end_prefix(s, t, i + 4);
    let n = line_end(s, i + 4)->0;
    lemma_u32_prefix(s, t, n);
    lemma_u32_prefix(s, t, n + 4);
    lemma_words_prefix(s, t, n + 8, 5);
    assert(u.subrange(i + 4, n) =~= s.subrange(i + 4, n));
    let bits = u16_at(s, n + 4);
    let count = bits % 4096;
    let typ = bits / 4096;
    let flags = u16_at(s, n + 6) % 32;
    let p = n + 8 + 20;
    if (flags / 4) % 2 != 1 {
        if typ == 1 || typ == 2 {
            lemma_words_prefix(s, t, p, count);
        } else if typ == 3 {
            lemma_strings_prefix(s, t, p, count);
        } else if typ != 0 {
            lemma_u32_prefix(s, t, p);
        }
        assert(content_at(u, p, count, typ) == content_at(s, p, count, typ));
    }
    let e = symbol_at(s, i)->Ok_0.1 - 4;
    lemma_u32_prefix(s, t, e);
}

proof fn lemma_symbols_prefix(s: Seq<u8>, t: Seq<u8>, i: int, n: int)
    requires
        0 <= i,
        symbols_at(s, i, n) is Ok,
    ensures
        symbols_at(s + t, i, n) == symbols_at(s, i, n),
        n > 0 ==> symbols_at(s, i, n)->Ok_0.1 <= s.len(),
        symbols_at(s, i, n)->Ok_0.1 >= i,
    decreases n,
{
    if n > 0 {
        lemma_symbol_prefix(s, t, i);
        let e = symbol_at(s, i)->Ok_0.1;
        lemma_symbols_prefix(s, t, e, n - 1);
    }
}

/// Reading a file stops where its bytecode ends: bytes after a file do not change what
/// is read, nor where the file is said to end.
pub proof fn lemma_trailing_data_is_ignored(s: Seq<u8>, t: Seq<u8>)
    requires
        dat_at(s) is Ok,
    ensures
        dat_at(s + t) == dat_at(s),
{
    let u = s + t;
    assert(u[0] == s[0]);
    lemma_u32_prefix(s, t, 1);
    let n = u32_at(s, 1);
    lemma_words_prefix(s, t, 5, n);
    lemma_symbols_prefix(s, t, 5 + 4 * n, n);
    let p = symbols_at(s, 5 + 4 * n, n)->Ok_0.1;
    lemma_u32_prefix(s, t, p);
    let size = u32_at(s, p);
    assert(u.subrange(p + 4, p + 4 + size) =~= s.subrange(p + 4, p + 4 + size));
}

/// What a symbol holds follows from its type. A class variable (flag 4) holds nothing. Any
/// other symbol holds: nothing for `Void`; its `count` words, just before the parent word
/// that ends the symbol, as `FloatData` for `Float` and as `IntData` for `Int`; one word,
/// just before the parent word, as `FuncLike` (its address) for a function, a prototype or
/// an instance, and as `ClassVar` only for a class.
pub proof fn lemma_symbol_contents_by_type(s: Seq<u8>, i: int)
    requires
        symbol_at(s, i) is Ok,
    ensures
        ({
            let (sym, e) = symbol_at(s, i)->Ok_0;
            let w = u32_at(s, e - 8) as u32;
            let words = words_at(s, e - 4 - 4 * sym.count, sym.count as int);
            &&& (sym.flags / 4) % 2 == 1 ==> sym.data is None
            &&& (sym.flags / 4) % 2 == 0 ==> {
                &&& sym.typ == SymbolType::Void ==> sym.data == Some(SpecContent::Empty)
                &&& sym.typ == SymbolType::Float ==> sym.data == Some(SpecContent::FloatData(words))
                &&& sym.typ == SymbolType::Int ==> sym.data == Some(SpecContent::IntData(words))
                &&& sym.typ == SymbolType::String ==> (sym.data matches Some(
                    SpecContent::StringData(ss),
                ) && ss.len() == sym.count)
                &&& (sym.typ == SymbolType::Func || sym.typ == SymbolType::Prototype || sym.typ
                    == SymbolType::Instance) ==> sym.data == Some(SpecContent::FuncLike(w))
                &&& sym.typ == SymbolType::Class ==> sym.data == Some(SpecContent::ClassVar(w))
            }
        }),
{
    let (sym, e) = symbol_at(s, i)->Ok_0;
    if sym.typ == SymbolType::String && (sym.flags / 4) % 2 == 0 {
        let n = line_end(s, i + 4)->0;
        lemma_strings_count(s, n + 28, sym.count as int);
    }
}

proof fn lemma_strings_count(s: Seq<u8>, i: int, n: int)
    ensures
        strings_at(s, i, n) matches Some((ss, _)) ==> ss.len() == (if n < 0 { 0 } else { n }),
    decreases n,
{
    if n > 0 {
        match line_end(s, i) {
            None => {},
            Some(e) => lemma_strings_count(s, e, n - 1),
        }
    }
}

// ------------------------------------------------------------------
// Views
// ------------------------------------------------------------------

impl View for SymbolSpecific {
    type V = SpecContent;

    open spec fn view(&self) -> SpecContent {
        match self {
            SymbolSpecific::Empty => SpecContent::Empty,
            SymbolSpecific::FloatData(v) => SpecContent::FloatData(v@),
            SymbolSpecific::IntData(v) => SpecContent::IntData(v@),
            SymbolSpecific::StringData(v) => SpecContent::StringData(
                v@.map_values(|d: DatString| d.data@),
            ),
            SymbolSpecific::ClassVar(w) => SpecContent::ClassVar(*w),
            SymbolSpecific::FuncLike(w) => SpecContent::FuncLike(*w),
        }
    }
}

impl View for DatSymbol {
    type V = SpecSymbol;

    open spec fn view(&self) -> SpecSymbol {
        SpecSymbol {
            named: self.named,
            name: self.name@,
            off_cls_ret: self.off_cls_ret,
            count: self.count,
            typ: self.typ,
            flags: self.flags.0,
            place: seq![self.file_index, self.line_start, self.line_count, self.char_start, self.char_count],
            data: match self.symbol_data {
                Some(c) => Some(c@),
                None => None,
            },
            parent: self.parent,
        }
    }
}

impl View for GothicDat {
    type V = SpecDat;

    open spec fn view(&self) -> SpecDat {
        SpecDat {
            version: self.version,
            num_symbols: self.num_symbols,
            bytecode_size: self.bytecode_size,
            sorted: self.symbols_sorted@,
            symbols: self.symbols@.map_values(|x: DatSymbol| x@),
            bytecode: self.bytecode@,
        }
    }
}

// ------------------------------------------------------------------
// Reading
// ------------------------------------------------------------------

fn read_u16(s: &[u8], i: usize) -> (r: Option<u16>)
    ensures
        r == if i + 2 <= s@.len() {
            Some(u16_at(s@, i as int) as u16)
        } else {
            None::<u16>
        },
{
    if i > s.len() || s.len() - i < 2 {
        return None;
    }
    Some((s[i] as u16) + (s[i + 1] as u16) * 256)
}

fn read_u32(s: &[u8], i: usize) -> (r: Option<u32>)
    ensures
        r == if i + 4 <= s@.len() {
            Some(u32_at(s@, i as int) as u32)
        } else {
            None::<u32>
        },
{
    if i > s.len() || s.len() - i < 4 {
        return None;
    }
    Some((s[i] as u32) + (s[i + 1] as u32) * 256 + (s[i + 2] as u32) * 65536 + (s[i + 3] as u32)
        * 16777216)
}

fn read_line(s: &[u8], i: usize) -> (r: Option<(Vec<u8>, usize)>)
    ensures
        match (r, line_end(s@, i as int)) {
            (Some((v, e)), Some(e2)) => e == e2 && v@ == s@.subrange(i as int, e2),
            (None, None) => true,
            _ => false,
        },
{
    if i >= s.len() {
        return None;
    }
    let mut j = i;
    let mut out: Vec<u8> = Vec::new();
    while j < s.len()
        invariant
            i <= j <= s@.len(),
            out@ == s@.subrange(i as int, j as int),
            line_end(s@, i as int) == line_end(s@, j as int),
        decreases s@.len() - j,
    {
        out.push(s[j]);
        if s[j] == 10 {
            assert(out@ =~= s@.subrange(i as int, j as int + 1));
            return Some((out, j + 1));
        }
        j += 1;
    }
    None
}

fn read_words(s: &[u8], i: usize, n: usize) -> (r: Option<(Vec<u32>, usize)>)
    ensures
        match r {
            Some((v, e)) => i + 4 * n <= s@.len() && v@ == words_at(s@, i as int, n as int) && e == i + 4 * n,
            None => i + 4 * n > s@.len(),
        },
{
    if i > s.len() {
        return None;
    }
    let avail = s.len() - i;
    if n > avail / 4 {
        assert(4 * n > avail) by (nonlinear_arith)
            requires
                n > avail / 4,
        ;
        return None;
    }
    assert(4 * n <= avail) by (nonlinear_arith)
        requires
            n <= avail / 4,
    ;
    let len = s.len();
    let mut v: Vec<u32> = Vec::new();
    let mut k: usize = 0;
    while k < n
        invariant
            len == s@.len(),
            k <= n,
            i + 4 * n <= s@.len(),
            v@ == words_at(s@, i as int, k as int),
        decreases n - k,
    {
        let w = read_u32(s, i + 4 * k);
        match w {
            Some(w) => v.push(w),
            None => {
                return None;
            },
        }
        assert(v@ =~= words_at(s@, i as int, k as int + 1));
        k += 1;
    }
    Some((v, i + 4 * n))
}

fn read_strings(s: &[u8], i: usize, n: usize) -> (r: Option<(Vec<DatString>, usize)>)
    ensures
        match (r, strings_at(s@, i as int, n as int)) {
            (Some((v, e)), Some((ss, e2))) => e == e2 && v@.map_values(|d: DatString| d.data@) == ss,
            (None, None) => true,
            _ => false,
        },
{
    let mut v: Vec<DatString> = Vec::new();
    let mut p = i;
    let mut k: usize = 0;
    while k < n
        invariant
            k <= n,
            strings_at(s@, i as int, n as int) == match strings_at(s@, p as int, (n - k) as int) {
                None => None,
                Some((rest, end)) => Some((v@.map_values(|d: DatString| d.data@) + rest, end)),
            },
        decreases n - k,
    {
        match read_line(s, p) {
            None => {
                return None;
            },
            Some((line, e)) => {
                let ghost before = v@.map_values(|d: DatString| d.data@);
                v.push(DatString { data: line });
                assert(v@.map_values(|d: DatString| d.data@) =~= before.push(s@.subrange(p as int, e as int)));
                assert forall|x: Seq<Seq<u8>>| #[trigger] (before + (seq![s@.subrange(p as int, e as int)] + x))
                    =~= v@.map_values(|d: DatString| d.data@) + x by {}
                p = e;
            },
        }
        k += 1;
    }
    assert(v@.map_values(|d: DatString| d.data@) + seq![] =~= v@.map_values(|d: DatString| d.data@));
    Some((v, p))
}

fn read_content(s: &[u8], i: usize, count: u16, typ: u16) -> (r: Option<(SymbolSpecific, usize)>)
    requires
        typ < 8,
    ensures
        match (r, content_at(s@, i as int, count as int, typ as int)) {
            (Some((c, e)), Some((c2, e2))) => e == e2 && c@ == c2,
            (None, None) => true,
            _ => false,
        },
{
    if typ == 0 {
        Some((SymbolSpecific::Empty, i))
    } else if typ == 1 || typ == 2 {
        match read_words(s, i, count as usize) {
            None => None,
            Some((w, e)) => if typ == 1 {
                Some((SymbolSpecific::FloatData(w), e))
            } else {
                Some((SymbolSpecific::IntData(w), e))
            },
        }
    } else if typ == 3 {
        match read_strings(s, i, count as usize) {
            None => None,
            Some((v, e)) => Some((SymbolSpecific::StringData(v), e)),
        }
    } else {
        if i > s.len() || s.len() - i < 4 {
            return None;
        }
        match read_u32(s, i) {
            None => None,
            Some(w) => if typ == 4 {
                Some((SymbolSpecific::ClassVar(w), i + 4))
            } else {
                Some((SymbolSpecific::FuncLike(w), i + 4))
            },
        }
    }
}

impl DatSymbol {
    /// Reads the symbol that starts at `i`; returns it and where it ends.
    pub fn read(s: &[u8], i: usize) -> (r: Result<(DatSymbol, usize), DatError>)
        ensures
            match (r, symbol_at(s@, i as int)) {
                (Ok((sym, e)), Ok((sym2, e2))) => e == e2 && sym@ == sym2,
                (Err(x), Err(y)) => x == y,
                _ => false,
            },
    {
        if i > s.len() || s.len() - i < 4 {
            return Err(DatError::Incomplete);
        }
        let named = match read_u32(s, i) {
            Some(w) => w,
            None => return Err(DatError::Incomplete),
        };
        let (name, n) = match read_line(s, i + 4) {
            Some(x) => x,
            None => return Err(DatError::Incomplete),
        };
        if n > s.len() || s.len() - n < 28 {
            return Err(DatError::Incomplete);
        }
        let off_cls_ret = read_u32(s, n).unwrap();
        let bits = read_u16(s, n + 4).unwrap();
        let flags = read_u16(s, n + 6).unwrap() % 32;
        let count = bits % 4096;
        let typ_number = bits / 4096;
        let typ = match SymbolType::from_u32(typ_number as u32) {
            Some(t) => t,
            None => return Err(DatError::InvalidSymbolType(typ_number as u8)),
        };
        let place = n + 8;
        let file_index = read_u32(s, place).unwrap();
        let line_start = read_u32(s, place + 4).unwrap();
        let line_count = read_u32(s, place + 8).unwrap();
        let char_start = read_u32(s, place + 12).unwrap();
        let char_count = read_u32(s, place + 16).unwrap();
        let p = place + 20;
        let (symbol_data, e) = if (flags / 4) % 2 == 1 {
            (None, p)
        } else {
            match read_content(s, p, count, typ_number) {
                Some((c, e)) => (Some(c), e),
                None => return Err(DatError::Incomplete),
            }
        };
        let parent = match read_u32(s, e) {
            Some(w) => w,
            None => return Err(DatError::Incomplete),
        };
        let sym = DatSymbol {
            named,
            name,
            off_cls_ret,
            count,
            typ,
            flags: SymbolFlags(flags),
            file_index,
            line_start,
            line_count,
            char_start,
            char_count,
            symbol_data,
            parent,
        };
        proof {
            assert(sym@.place =~= words_at(s@, n as int + 8, 5));
        }
        Ok((sym, e + 4))
    }
}

impl GothicDat {
    /// Reads the file at the start of `data`; returns it and how many bytes it takes.
    pub fn from_bytes(data: &[u8]) -> (r: Result<(GothicDat, usize), DatError>)
        ensures
            match (r, dat_at(data@)) {
                (Ok((d, e)), Ok((d2, e2))) => e == e2 && d@ == d2,
                (Err(x), Err(y)) => x == y,
                _ => false,
            },
    {
        if data.len() < 5 {
            return Err(DatError::Incomplete);
        }
        let version = data[0];
        let num_symbols = read_u32(data, 1).unwrap();
        let (symbols_sorted, mut p) = match read_words(data, 5, num_symbols as usize) {
            Some(x) => x,
            None => return Err(DatError::Incomplete),
        };
        let ghost start = p;
        let ghost n = num_symbols as int;
        let mut symbols: Vec<DatSymbol> = Vec::new();
        let mut k: u32 = 0;
        while k < num_symbols
            invariant
                k <= num_symbols,
                n == num_symbols as int,
                data@.len() >= 5,
                n == u32_at(data@, 1),
                start == 5 + 4 * n,
                5 + 4 * n <= data@.len(),
                symbols_at(data@, start as int, n) == match symbols_at(data@, p as int, n - k) {
                    Err(x) => Err(x),
                    Ok((rest, end)) => Ok((symbols@.map_values(|x: DatSymbol| x@) + rest, end)),
                },
            decreases num_symbols - k,
        {
            match DatSymbol::read(data, p) {
                Err(e) => {
                    assert(symbols_at(data@, p as int, n - k) == Err::<(Seq<SpecSymbol>, int), DatError>(e));
                    return Err(e);
                },
                Ok((sym, e)) => {
                    let ghost before = symbols@.map_values(|x: DatSymbol| x@);
                    let ghost sv = sym@;
                    symbols.push(sym);
                    assert(symbols@.map_values(|x: DatSymbol| x@) =~= before.push(sv));
                    assert forall|x: Seq<SpecSymbol>| #[trigger] (before + (seq![sv] + x))
                        =~= symbols@.map_values(|y: DatSymbol| y@) + x by {}
                    p = e;
                },
            }
            k += 1;
        }
        let bytecode_size = match read_u32(data, p) {
            Some(w) => w,
            None => return Err(DatError::Incomplete),
        };
        if data.len() - (p + 4) < bytecode_size as usize {
            return Err(DatError::Incomplete);
        }
        let start_code = p + 4;
        let end_code = start_code + bytecode_size as usize;
        let mut bytecode: Vec<u8> = Vec::new();
        let mut j = start_code;
        while j < end_code
            invariant
                start_code <= j <= end_code <= data@.len(),
                bytecode@ == data@.subrange(start_code as int, j as int),
            decreases end_code - j,
        {
            bytecode.push(data[j]);
            assert(bytecode@ =~= data@.subrange(start_code as int, j as int + 1));
            j += 1;
        }
        assert(symbols@.map_values(|x: DatSymbol| x@) + seq![] =~= symbols@.map_values(|x: DatSymbol| x@));
        Ok((GothicDat { version, num_symbols, symbols_sorted, symbols, bytecode_size, bytecode }, end_code))
    }

    /// Reads a whole file; the file must end where its bytecode ends.
    pub fn parse(data: &[u8]) -> (r: Result<GothicDat, DatError>)
        requires
            dat_at(data@) matches Ok((_, e)) ==> e == data@.len(),
        ensures
            match (r, dat_at(data@)) {
                (Ok(d), Ok((d2, _))) => d@ == d2,
                (Err(x), Err(y)) => x == y,
                _ => false,
            },
    {
        match Self::from_bytes(data) {
            Ok((dat, _)) => Ok(dat),
            Err(e) => Err(e),
        }
    }
}

} // verus!
