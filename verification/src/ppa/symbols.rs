//! Symbols declared in parsed code, their types, and lookup by name and scope.
use crate::lexer::{eq_ignore_ascii_case, eq_ignore_case, lower};
use crate::types::{
    Class, ConstArrayDeclaration, ConstDeclaration, Function, Identifier, Instance, Prototype,
    SpecClass, SpecConstArrayDeclaration, SpecConstDeclaration, SpecFunction, SpecIdentifier,
    SpecInstance, SpecVarDeclaration, VarDeclaration,
};
use vstd::prelude::*;

verus! {

/// The type of a value in Daedalus.
#[derive(Debug, PartialEq)]
pub enum zPAR_TYPE {
    Void,
    Int,
    Float,
    String,
    Func,
    Instance(Identifier),
}

pub enum SpecZType {
    Void,
    Int,
    Float,
    String,
    Func,
    Instance(SpecIdentifier),
}

impl View for zPAR_TYPE {
    type V = SpecZType;

    open spec fn view(&self) -> SpecZType {
        match self {
            zPAR_TYPE::Void => SpecZType::Void,
            zPAR_TYPE::Int => SpecZType::Int,
            zPAR_TYPE::Float => SpecZType::Float,
            zPAR_TYPE::String => SpecZType::String,
            zPAR_TYPE::Func => SpecZType::Func,
            zPAR_TYPE::Instance(i) => SpecZType::Instance(i@),
        }
    }
}

pub open spec fn word(s: Seq<char>) -> Seq<u8> {
    s.map_values(|c: char| c as u8)
}

/// The type a type name stands for: the primitive types by name in any case, and the
/// class (or prototype) of that name otherwise.
pub open spec fn spec_from_ident(id: SpecIdentifier) -> SpecZType {
    if eq_ignore_case(id.name, seq![105u8, 110, 116]) {
        SpecZType::Int
    } else if eq_ignore_case(id.name, seq![102u8, 108, 111, 97, 116]) {
        SpecZType::Float
    } else if eq_ignore_case(id.name, seq![115u8, 116, 114, 105, 110, 103]) {
        SpecZType::String
    } else if eq_ignore_case(id.name, seq![118u8, 111, 105, 100]) {
        SpecZType::Void
    } else if eq_ignore_case(id.name, seq![102u8, 117, 110, 99]) {
        SpecZType::Func
    } else {
        SpecZType::Instance(id)
    }
}

impl zPAR_TYPE {
    pub fn from_ident(id: &Identifier) -> (t: zPAR_TYPE)
        ensures
            t@ == spec_from_ident(id@),
    {
        let name = id.as_bytes();
        if eq_ignore_ascii_case(name, &[105u8, 110, 116]) {
            zPAR_TYPE::Int
        } else if eq_ignore_ascii_case(name, &[102u8, 108, 111, 97, 116]) {
            zPAR_TYPE::Float
        } else if eq_ignore_ascii_case(name, &[115u8, 116, 114, 105, 110, 103]) {
            zPAR_TYPE::String
        } else if eq_ignore_ascii_case(name, &[118u8, 111, 105, 100]) {
            zPAR_TYPE::Void
        } else if eq_ignore_ascii_case(name, &[102u8, 117, 110, 99]) {
            zPAR_TYPE::Func
        } else {
            zPAR_TYPE::Instance(id.duplicate())
        }
    }

    pub fn is_int(&self) -> (b: bool)
        ensures
            b == (self@ == SpecZType::Int),
    {
        match self {
            zPAR_TYPE::Int => true,
            _ => false,
        }
    }

    /// Whether two types are the same; instance types name the same identifier.
    pub fn same(&self, other: &zPAR_TYPE) -> (b: bool)
        ensures
            b == (self@ == other@),
    {
        match (self, other) {
            (zPAR_TYPE::Void, zPAR_TYPE::Void) => true,
            (zPAR_TYPE::Int, zPAR_TYPE::Int) => true,
            (zPAR_TYPE::Float, zPAR_TYPE::Float) => true,
            (zPAR_TYPE::String, zPAR_TYPE::String) => true,
            (zPAR_TYPE::Func, zPAR_TYPE::Func) => true,
            (zPAR_TYPE::Instance(a), zPAR_TYPE::Instance(b)) => {
                let same_span = a.span.0 == b.span.0 && a.span.1 == b.span.1;
                let same_name = crate::parser::parser::bytes_equal(&a.name.0, &b.name.0);
                proof {
                    if same_span && same_name {
                        assert(a@ == b@);
                    }
                }
                same_span && same_name
            },
            _ => false,
        }
    }

    pub fn duplicate(&self) -> (t: zPAR_TYPE)
        ensures
            t@ == self@,
    {
        match self {
            zPAR_TYPE::Void => zPAR_TYPE::Void,
            zPAR_TYPE::Int => zPAR_TYPE::Int,
            zPAR_TYPE::Float => zPAR_TYPE::Float,
            zPAR_TYPE::String => zPAR_TYPE::String,
            zPAR_TYPE::Func => zPAR_TYPE::Func,
            zPAR_TYPE::Instance(i) => zPAR_TYPE::Instance(i.duplicate()),
        }
    }
}

/// A declared symbol; variables and constants carry the name of the function, class or
/// instance they were declared in, if any.
#[derive(Debug)]
pub enum Symbol<'a> {
    Func(&'a Function),
    Class(&'a Class),
    Inst(&'a Instance),
    Proto(&'a Prototype),
    Var(&'a VarDeclaration, Option<&'a Identifier>),
    Const(&'a ConstDeclaration, Option<&'a Identifier>),
    ConstArray(&'a ConstArrayDeclaration, Option<&'a Identifier>),
}

pub enum SpecSymbol {
    Func(SpecFunction),
    Class(SpecClass),
    Inst(SpecInstance),
    Proto(SpecInstance),
    Var(SpecVarDeclaration, Option<SpecIdentifier>),
    Const(SpecConstDeclaration, Option<SpecIdentifier>),
    ConstArray(SpecConstArrayDeclaration, Option<SpecIdentifier>),
}

pub open spec fn opt_ref_ident_view(o: Option<&Identifier>) -> Option<SpecIdentifier> {
    match o {
        Some(i) => Some(i@),
        None => None,
    }
}

impl<'a> View for Symbol<'a> {
    type V = SpecSymbol;

    open spec fn view(&self) -> SpecSymbol {
        match self {
            Symbol::Func(f) => SpecSymbol::Func(f@),
            Symbol::Class(c) => SpecSymbol::Class(c@),
            Symbol::Inst(i) => SpecSymbol::Inst(i@),
            Symbol::Proto(p) => SpecSymbol::Proto(p@),
            Symbol::Var(d, s) => SpecSymbol::Var(d@, opt_ref_ident_view(*s)),
            Symbol::Const(d, s) => SpecSymbol::Const(d@, opt_ref_ident_view(*s)),
            Symbol::ConstArray(d, s) => SpecSymbol::ConstArray(d@, opt_ref_ident_view(*s)),
        }
    }
}

/// The name a symbol is declared under.
pub open spec fn sym_name(s: SpecSymbol) -> Seq<u8> {
    match s {
        SpecSymbol::Func(f) => f.name.name,
        SpecSymbol::Class(c) => c.name.name,
        SpecSymbol::Inst(i) => i.name.name,
        SpecSymbol::Proto(p) => p.name.name,
        SpecSymbol::Var(d, _) => d.name.name,
        SpecSymbol::Const(d, _) => d.name.name,
        SpecSymbol::ConstArray(d, _) => d.name.name,
    }
}

/// The identifier a symbol is declared with: its name and where the name stands.
pub open spec fn sym_ident(s: SpecSymbol) -> SpecIdentifier {
    match s {
        SpecSymbol::Func(f) => f.name,
        SpecSymbol::Class(c) => c.name,
        SpecSymbol::Inst(i) => i.name,
        SpecSymbol::Proto(p) => p.name,
        SpecSymbol::Var(d, _) => d.name,
        SpecSymbol::Const(d, _) => d.name,
        SpecSymbol::ConstArray(d, _) => d.name,
    }
}

/// The name of the scope a symbol is declared in, if any.
pub open spec fn sym_scope(s: SpecSymbol) -> Option<Seq<u8>> {
    match s {
        SpecSymbol::Var(_, Some(sc)) => Some(sc.name),
        SpecSymbol::Const(_, Some(sc)) => Some(sc.name),
        SpecSymbol::ConstArray(_, Some(sc)) => Some(sc.name),
        _ => None,
    }
}

/// The type of the value a symbol names.
pub open spec fn sym_typ(s: SpecSymbol) -> SpecZType {
    match s {
        SpecSymbol::Func(f) => SpecZType::Func,
        SpecSymbol::Class(c) => SpecZType::Instance(c.name),
        SpecSymbol::Inst(i) => spec_from_ident(i.class),
        SpecSymbol::Proto(p) => spec_from_ident(p.class),
        SpecSymbol::Var(d, _) => spec_from_ident(d.typ),
        SpecSymbol::Const(d, _) => spec_from_ident(d.typ),
        SpecSymbol::ConstArray(d, _) => spec_from_ident(d.typ),
    }
}

/// Whether symbol `s` is declared as `name` in scope `scope` (`None`: at the top level);
/// names compare without regard to ASCII case.
pub open spec fn declared_as(s: SpecSymbol, name: Seq<u8>, scope: Option<Seq<u8>>) -> bool {
    &&& eq_ignore_case(sym_name(s), name)
    &&& match (sym_scope(s), scope) {
        (None, None) => true,
        (Some(a), Some(b)) => eq_ignore_case(a, b),
        _ => false,
    }
}

/// The index of the first symbol at or after `i` declared as `name` in `scope`.
pub open spec fn first_from(syms: Seq<SpecSymbol>, name: Seq<u8>, scope: Option<Seq<u8>>, i: int) -> Option<int>
    decreases syms.len() - i,
    when 0 <= i
{
    if i >= syms.len() {
        None
    } else if declared_as(syms[i], name, scope) {
        Some(i)
    } else {
        first_from(syms, name, scope, i + 1)
    }
}

proof fn lemma_first_from(syms: Seq<SpecSymbol>, name: Seq<u8>, scope: Option<Seq<u8>>, i: int)
    requires
        0 <= i,
    ensures
        first_from(syms, name, scope, i) matches Some(k) ==> i <= k < syms.len() && declared_as(
            syms[k],
            name,
            scope,
        ),
    decreases syms.len() - i,
{
    if i < syms.len() && !declared_as(syms[i], name, scope) {
        lemma_first_from(syms, name, scope, i + 1);
    }
}

/// The index of the first symbol declared as `name` in `scope`.
pub open spec fn first_declared(syms: Seq<SpecSymbol>, name: Seq<u8>, scope: Option<Seq<u8>>) -> Option<int> {
    first_from(syms, name, scope, 0)
}

/// The symbol a name refers to in a scope: one declared in that scope, else a top level one.
pub open spec fn spec_lookup(syms: Seq<SpecSymbol>, name: Seq<u8>, scope: Option<Seq<u8>>) -> Option<int> {
    match scope {
        Some(sc) => match first_declared(syms, name, Some(sc)) {
            Some(i) => Some(i),
            None => first_declared(syms, name, None),
        },
        None => first_declared(syms, name, None),
    }
}

proof fn lemma_declared_as_ignores_case(
    s: SpecSymbol,
    n1: Seq<u8>,
    n2: Seq<u8>,
    sc1: Option<Seq<u8>>,
    sc2: Option<Seq<u8>>,
)
    requires
        eq_ignore_case(n1, n2),
        sc1 is Some <==> sc2 is Some,
        sc1 matches Some(a) ==> sc2 matches Some(b) && eq_ignore_case(a, b),
    ensures
        declared_as(s, n1, sc1) == declared_as(s, n2, sc2),
{
    let x = sym_name(s);
    if eq_ignore_case(x, n1) {
        assert forall|k: int| 0 <= k < x.len() implies lower(#[trigger] x[k]) == lower(n2[k]) by {
            assert(lower(n1[k]) == lower(n2[k]));
        }
    }
    if eq_ignore_case(x, n2) {
        assert forall|k: int| 0 <= k < x.len() implies lower(#[trigger] x[k]) == lower(n1[k]) by {
            assert(lower(n1[k]) == lower(n2[k]));
        }
    }
    if let (Some(y), Some(a), Some(b)) = (sym_scope(s), sc1, sc2) {
        if eq_ignore_case(y, a) {
            assert forall|k: int| 0 <= k < y.len() implies lower(#[trigger] y[k]) == lower(b[k]) by {
                assert(lower(a[k]) == lower(b[k]));
            }
        }
        if eq_ignore_case(y, b) {
            assert forall|k: int| 0 <= k < y.len() implies lower(#[trigger] y[k]) == lower(a[k]) by {
                assert(lower(a[k]) == lower(b[k]));
            }
        }
    }
}

proof fn lemma_first_from_ignores_case(
    syms: Seq<SpecSymbol>,
    n1: Seq<u8>,
    n2: Seq<u8>,
    sc1: Option<Seq<u8>>,
    sc2: Option<Seq<u8>>,
    i: int,
)
    requires
        0 <= i,
        eq_ignore_case(n1, n2),
        sc1 is Some <==> sc2 is Some,
        sc1 matches Some(a) ==> sc2 matches Some(b) && eq_ignore_case(a, b),
    ensures
        first_from(syms, n1, sc1, i) == first_from(syms, n2, sc2, i),
    decreases syms.len() - i,
{
    if i < syms.len() {
        lemma_declared_as_ignores_case(syms[i], n1, n2, sc1, sc2);
        lemma_first_from_ignores_case(syms, n1, n2, sc1, sc2, i + 1);
    }
}

/// Names are looked up regardless of ASCII case: names (and scopes) that differ only in
/// case find the same symbol.
pub proof fn lemma_lookup_ignores_case(
    syms: Seq<SpecSymbol>,
    n1: Seq<u8>,
    n2: Seq<u8>,
    sc1: Option<Seq<u8>>,
    sc2: Option<Seq<u8>>,
)
    requires
        eq_ignore_case(n1, n2),
        sc1 is Some <==> sc2 is Some,
        sc1 matches Some(a) ==> sc2 matches Some(b) && eq_ignore_case(a, b),
    ensures
        spec_lookup(syms, n1, sc1) == spec_lookup(syms, n2, sc2),
{
    lemma_first_from_ignores_case(syms, n1, n2, sc1, sc2, 0);
    lemma_first_from_ignores_case(syms, n1, n2, None, None, 0);
}

/// Type names are read regardless of ASCII case: two names that differ only in case name
/// the same primitive type, or both name a class or prototype.
pub proof fn lemma_type_name_ignores_case(a: SpecIdentifier, b: SpecIdentifier)
    requires
        eq_ignore_case(a.name, b.name),
    ensures
        spec_from_ident(a) is Instance <==> spec_from_ident(b) is Instance,
        !(spec_from_ident(a) is Instance) ==> spec_from_ident(a) == spec_from_ident(b),
{
    let x = a.name;
    let y = b.name;
    assert forall|t: Seq<u8>| eq_ignore_case(x, t) <==> eq_ignore_case(y, t) by {
        if eq_ignore_case(x, t) {
            assert forall|k: int| 0 <= k < y.len() implies lower(#[trigger] y[k]) == lower(t[k]) by {
                assert(lower(x[k]) == lower(y[k]));
            }
        }
        if eq_ignore_case(y, t) {
            assert forall|k: int| 0 <= k < x.len() implies lower(#[trigger] x[k]) == lower(t[k]) by {
                assert(lower(x[k]) == lower(y[k]));
            }
        }
    }
}

/// What a symbol declares.
#[derive(Debug, Clone, Copy, PartialEq, Eq)]
pub enum SymbolSort {
    Func,
    Class,
    Inst,
    Proto,
    Var,
    Const,
    ConstArray,
}

pub open spec fn sort_of(s: SpecSymbol) -> SymbolSort {
    match s {
        SpecSymbol::Func(_) => SymbolSort::Func,
        SpecSymbol::Class(_) => SymbolSort::Class,
        SpecSymbol::Inst(_) => SymbolSort::Inst,
        SpecSymbol::Proto(_) => SymbolSort::Proto,
        SpecSymbol::Var(_, _) => SymbolSort::Var,
        SpecSymbol::Const(_, _) => SymbolSort::Const,
        SpecSymbol::ConstArray(_, _) => SymbolSort::ConstArray,
    }
}

/// A symbol an error refers to: the identifier it is declared with, its index among the
/// symbols, and what it declares. Its file is found by its index.
#[derive(Debug, PartialEq)]
pub struct SymbolRef {
    pub name: Identifier,
    pub index: usize,
    pub sort: SymbolSort,
}

pub struct SpecSymbolRef {
    pub name: SpecIdentifier,
    pub index: int,
    pub sort: SymbolSort,
}

impl View for SymbolRef {
    type V = SpecSymbolRef;

    open spec fn view(&self) -> SpecSymbolRef {
        SpecSymbolRef { name: self.name@, index: self.index as int, sort: self.sort }
    }
}

/// The reference to symbol `i` of `syms`.
pub open spec fn symbol_ref(syms: Seq<SpecSymbol>, i: int) -> SpecSymbolRef {
    SpecSymbolRef { name: sym_ident(syms[i]), index: i, sort: sort_of(syms[i]) }
}

/// The symbols of a program, in the order they were declared.
pub struct SymbolCollection<'a> {
    pub syms: Vec<Symbol<'a>>,
}

impl<'a> View for SymbolCollection<'a> {
    type V = Seq<SpecSymbol>;

    open spec fn view(&self) -> Seq<SpecSymbol> {
        self.syms@.map_values(|s: Symbol<'a>| s@)
    }
}

impl<'a> Symbol<'a> {
    /// What the symbol declares.
    pub fn sort(&self) -> (k: SymbolSort)
        ensures
            k == sort_of(self@),
    {
        match self {
            Symbol::Func(_) => SymbolSort::Func,
            Symbol::Class(_) => SymbolSort::Class,
            Symbol::Inst(_) => SymbolSort::Inst,
            Symbol::Proto(_) => SymbolSort::Proto,
            Symbol::Var(_, _) => SymbolSort::Var,
            Symbol::Const(_, _) => SymbolSort::Const,
            Symbol::ConstArray(_, _) => SymbolSort::ConstArray,
        }
    }

    /// The reference to this symbol, which is symbol `index` of its collection.
    pub fn to_ref(&self, index: usize) -> (r: SymbolRef)
        ensures
            r@ == (SpecSymbolRef { name: sym_ident(self@), index: index as int, sort: sort_of(self@) }),
    {
        SymbolRef { name: self.ident().duplicate(), index, sort: self.sort() }
    }

    /// The identifier the symbol is declared with.
    pub fn ident(&self) -> (i: &'a Identifier)
        ensures
            i@ == sym_ident(self@),
    {
        match self {
            Symbol::Func(f) => &f.name,
            Symbol::Class(c) => &c.name,
            Symbol::Inst(i) => &i.name,
            Symbol::Proto(p) => &p.name,
            Symbol::Var(d, _) => &d.name,
            Symbol::Const(d, _) => &d.name,
            Symbol::ConstArray(d, _) => &d.name,
        }
    }

    pub fn name(&self) -> (n: &'a [u8])
        ensures
            n@ == sym_name(self@),
    {
        match self {
            Symbol::Func(f) => f.name.as_bytes(),
            Symbol::Class(c) => c.name.as_bytes(),
            Symbol::Inst(i) => i.name.as_bytes(),
            Symbol::Proto(p) => p.name.as_bytes(),
            Symbol::Var(d, _) => d.name.as_bytes(),
            Symbol::Const(d, _) => d.name.as_bytes(),
            Symbol::ConstArray(d, _) => d.name.as_bytes(),
        }
    }

    pub fn scope(&self) -> (s: Option<&'a [u8]>)
        ensures
            match s {
                Some(b) => sym_scope(self@) == Some(b@),
                None => sym_scope(self@) is None,
            },
    {
        match self {
            Symbol::Var(_, Some(sc)) => Some(sc.as_bytes()),
            Symbol::Const(_, Some(sc)) => Some(sc.as_bytes()),
            Symbol::ConstArray(_, Some(sc)) => Some(sc.as_bytes()),
            _ => None,
        }
    }

    /// The type of the value this symbol names.
    pub fn typ(&self) -> (t: zPAR_TYPE)
        ensures
            t@ == sym_typ(self@),
    {
        match self {
            Symbol::Func(_) => zPAR_TYPE::Func,
            Symbol::Class(c) => zPAR_TYPE::Instance(c.name.duplicate()),
            Symbol::Inst(i) => zPAR_TYPE::from_ident(&i.class),
            Symbol::Proto(p) => zPAR_TYPE::from_ident(&p.class),
            Symbol::Var(d, _) => zPAR_TYPE::from_ident(&d.typ),
            Symbol::Const(d, _) => zPAR_TYPE::from_ident(&d.typ),
            Symbol::ConstArray(d, _) => zPAR_TYPE::from_ident(&d.typ),
        }
    }

    fn is_declared_as(&self, name: &[u8], scope: Option<&[u8]>) -> (b: bool)
        ensures
            b == declared_as(
                self@,
                name@,
                match scope {
                    Some(s) => Some(s@),
                    None => None,
                },
            ),
    {
        if !eq_ignore_ascii_case(self.name(), name) {
            return false;
        }
        match (self.scope(), scope) {
            (None, None) => true,
            (Some(a), Some(b)) => eq_ignore_ascii_case(a, b),
            _ => false,
        }
    }
}

impl<'a> SymbolCollection<'a> {
    pub fn new(syms: Vec<Symbol<'a>>) -> (r: SymbolCollection<'a>)
        ensures
            r.syms@ == syms@,
    {
        SymbolCollection { syms }
    }

    fn first_declared(&self, name: &[u8], scope: Option<&[u8]>) -> (r: Option<usize>)
        ensures
            match r {
                Some(i) => first_declared(
                    self@,
                    name@,
                    match scope {
                        Some(s) => Some(s@),
                        None => None,
                    },
                ) == Some(i as int),
                None => first_declared(
                    self@,
                    name@,
                    match scope {
                        Some(s) => Some(s@),
                        None => None,
                    },
                ) is None,
            },
    {
        let ghost sc = match scope {
            Some(s) => Some(s@),
            None => None,
        };
        let mut i: usize = 0;
        while i < self.syms.len()
            invariant
                i <= self.syms@.len(),
                sc == match scope {
                    Some(s) => Some(s@),
                    None => None,
                },
                first_declared(self@, name@, sc) == first_from(self@, name@, sc, i as int),
            decreases self.syms@.len() - i,
        {
            if self.syms[i].is_declared_as(name, scope) {
                return Some(i);
            }
            i += 1;
        }
        None
    }

    /// The index of the symbol `name` refers to in `scope`: one declared in the scope, else
    /// a top level one.
    pub fn lookup_index(&self, name: &Identifier, scope: Option<&Identifier>) -> (r: Option<usize>)
        ensures
            ({
                let l = spec_lookup(
                    self@,
                    name@.name,
                    match scope {
                        Some(s) => Some(s@.name),
                        None => None,
                    },
                );
                &&& r is Some <==> l is Some
                &&& r matches Some(i) ==> l == Some(i as int) && i < self@.len()
            }),
    {
        proof {
            let sc = match scope {
                Some(s) => Some(s@.name),
                None => None,
            };
            lemma_first_from(self@, name@.name, sc, 0);
            lemma_first_from(self@, name@.name, None, 0);
        }
        match scope {
            Some(s) => match self.first_declared(name.as_bytes(), Some(s.as_bytes())) {
                Some(i) => Some(i),
                None => self.first_declared(name.as_bytes(), None),
            },
            None => self.first_declared(name.as_bytes(), None),
        }
    }

    /// The symbol `name` refers to in `scope`: one declared in the scope, else a top level one.
    pub fn lookup_symbol(&self, name: &Identifier, scope: Option<&Identifier>) -> (r: Option<&Symbol<'a>>)
        ensures
            match spec_lookup(
                self@,
                name@.name,
                match scope {
                    Some(s) => Some(s@.name),
                    None => None,
                },
            ) {
                Some(i) => r matches Some(s) && 0 <= i < self@.len() && s@ == self@[i],
                None => r is None,
            },
    {
        match self.lookup_index(name, scope) {
            Some(i) => Some(&self.syms[i]),
            None => None,
        }
    }

    /// The symbols in declaration order.
    pub fn len(&self) -> (n: usize)
        ensures
            n == self@.len(),
    {
        self.syms.len()
    }
}

} // verus!
