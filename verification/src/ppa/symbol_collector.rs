//! Collects the symbols a program declares, in the order they are declared.
use crate::parser::parser::if_view;
use crate::ppa::symbols::{SpecSymbol, Symbol, declared_as, first_from, spec_lookup};
use crate::types::{
    AST, Declaration, Identifier, IfStatement, SpecDeclaration, SpecIdentifier, SpecInstance, SpecStatement,
    SpecVarDeclaration, Statement, VarDeclaration, branches_view, decls_view,
    lemma_branches_view_len, lemma_stmts_view_len, stmt_view, stmts_view, var_decls_view,
};
use vstd::prelude::*;

verus! {

pub open spec fn syms_view<'a>(v: Seq<Symbol<'a>>) -> Seq<SpecSymbol> {
    v.map_values(|s: Symbol<'a>| s@)
}

/// Variables declared in `scope`.
pub open spec fn vars_in(ds: Seq<SpecVarDeclaration>, scope: Option<SpecIdentifier>) -> Seq<SpecSymbol> {
    ds.map_values(|d: SpecVarDeclaration| SpecSymbol::Var(d, scope))
}

/// The variables and constants a statement declares in `scope`, those of nested if
/// clauses included.
pub open spec fn stmt_symbols(s: SpecStatement, scope: SpecIdentifier) -> Seq<SpecSymbol>
    decreases s, 0int,
{
    match s {
        SpecStatement::VarDeclarations(ds) => vars_in(ds, Some(scope)),
        SpecStatement::ConstDeclaration(d) => seq![SpecSymbol::Const(d, Some(scope))],
        SpecStatement::ConstArrayDeclaration(d) => seq![SpecSymbol::ConstArray(d, Some(scope))],
        SpecStatement::If(brs, els, _) => branches_symbols(brs, scope, 0) + match els {
            Some(b) => stmts_symbols(b, scope, 0),
            None => seq![],
        },
        _ => seq![],
    }
}

pub open spec fn stmts_symbols(ss: Seq<SpecStatement>, scope: SpecIdentifier, k: int) -> Seq<SpecSymbol>
    decreases ss, ss.len() - k,
    when 0 <= k
{
    if k >= ss.len() {
        seq![]
    } else {
        stmt_symbols(ss[k], scope) + stmts_symbols(ss, scope, k + 1)
    }
}

pub open spec fn branches_symbols(
    brs: Seq<(crate::types::SpecExpression, Seq<SpecStatement>, (int, int))>,
    scope: SpecIdentifier,
    k: int,
) -> Seq<SpecSymbol>
    decreases brs, brs.len() - k,
    when 0 <= k
{
    if k >= brs.len() {
        seq![]
    } else {
        stmts_symbols(brs[k].1, scope, 0) + branches_symbols(brs, scope, k + 1)
    }
}

/// The symbols of instances from the `k`th on: each instance, then what its body declares.
pub open spec fn insts_symbols(is: Seq<SpecInstance>, k: int) -> Seq<SpecSymbol>
    decreases is.len() - k,
    when 0 <= k
{
    if k >= is.len() {
        seq![]
    } else {
        seq![SpecSymbol::Inst(is[k])] + stmts_symbols(is[k].body, is[k].name, 0) + insts_symbols(
            is,
            k + 1,
        )
    }
}

/// The symbols of a top level declaration: the declared thing first, then what it declares
/// inside. The bodies of prototypes are not searched.
pub open spec fn decl_symbols(d: SpecDeclaration) -> Seq<SpecSymbol> {
    match d {
        SpecDeclaration::Var(ds) => vars_in(ds, None),
        SpecDeclaration::Func(f) => seq![SpecSymbol::Func(f)] + stmts_symbols(f.body, f.name, 0),
        SpecDeclaration::Class(c) => seq![SpecSymbol::Class(c)] + vars_in(c.members, Some(c.name)),
        SpecDeclaration::Inst(is) => insts_symbols(is, 0),
        SpecDeclaration::Proto(p) => seq![SpecSymbol::Proto(p)],
        SpecDeclaration::Const(d) => seq![SpecSymbol::Const(d, None)],
        SpecDeclaration::ConstArray(d) => seq![SpecSymbol::ConstArray(d, None)],
    }
}

/// The symbols of the declarations from the `k`th on, in order.
pub open spec fn decls_symbols(ds: Seq<SpecDeclaration>, k: int) -> Seq<SpecSymbol>
    decreases ds.len() - k,
    when 0 <= k
{
    if k >= ds.len() {
        seq![]
    } else {
        decl_symbols(ds[k]) + decls_symbols(ds, k + 1)
    }
}

/// A class declares the class itself and then each of its member variables, in order, as a
/// variable whose scope is the class's name.
pub proof fn lemma_class_declares_its_members(c: crate::types::SpecClass)
    ensures
        decl_symbols(SpecDeclaration::Class(c)).len() == 1 + c.members.len(),
        decl_symbols(SpecDeclaration::Class(c))[0] == SpecSymbol::Class(c),
        forall|m: int|
            0 <= m < c.members.len() ==> #[trigger] decl_symbols(SpecDeclaration::Class(c))[1 + m]
                == SpecSymbol::Var(c.members[m], Some(c.name)),
{
}

/// The symbols of the declarations from the `d`th on end the symbols of those from the `k`th on.
proof fn lemma_decls_symbols_suffix(ds: Seq<SpecDeclaration>, k: int, d: int)
    requires
        0 <= k <= d <= ds.len(),
    ensures
        decls_symbols(ds, d).len() <= decls_symbols(ds, k).len(),
        decls_symbols(ds, k).subrange(
            decls_symbols(ds, k).len() - decls_symbols(ds, d).len(),
            decls_symbols(ds, k).len() as int,
        ) == decls_symbols(ds, d),
    decreases d - k,
{
    if k == d {
        assert(decls_symbols(ds, k).subrange(0, decls_symbols(ds, k).len() as int) =~= decls_symbols(ds, k));
    } else {
        lemma_decls_symbols_suffix(ds, k + 1, d);
        let front = decl_symbols(ds[k]);
        let rest = decls_symbols(ds, k + 1);
        let tail = decls_symbols(ds, d);
        assert(decls_symbols(ds, k) == front + rest);
        assert((front + rest).subrange((front + rest).len() - tail.len(), (front + rest).len() as int)
            =~= rest.subrange(rest.len() - tail.len(), rest.len() as int));
    }
}

/// Every class of a program has its members among the collected symbols: where the class's
/// symbol stands, its member variables follow it, in order, each scoped to the class.
pub proof fn lemma_class_members_collected(ds: Seq<SpecDeclaration>, d: int, c: crate::types::SpecClass)
    requires
        0 <= d < ds.len(),
        ds[d] == SpecDeclaration::Class(c),
    ensures
        ({
            let all = decls_symbols(ds, 0);
            let p = all.len() - decls_symbols(ds, d).len();
            &&& 0 <= p
            &&& p + c.members.len() < all.len()
            &&& all[p] == SpecSymbol::Class(c)
            &&& forall|m: int|
                0 <= m < c.members.len() ==> #[trigger] all[p + 1 + m] == SpecSymbol::Var(
                    c.members[m],
                    Some(c.name),
                )
        }),
{
    lemma_decls_symbols_suffix(ds, 0, d);
    lemma_class_declares_its_members(c);
    let all = decls_symbols(ds, 0);
    let tail = decls_symbols(ds, d);
    let p = all.len() - tail.len();
    assert(tail == decl_symbols(ds[d]) + decls_symbols(ds, d + 1));
    assert(all[p] == tail[0]);
    assert forall|m: int| 0 <= m < c.members.len() implies #[trigger] all[p + 1 + m]
        == SpecSymbol::Var(c.members[m], Some(c.name)) by {
        assert(all[p + 1 + m] == tail[1 + m]);
    }
}

/// A symbol at or after `i` declared as `name` in `scope` is found from `i` on, at it or
/// before it.
proof fn lemma_first_from_finds(
    syms: Seq<SpecSymbol>,
    name: Seq<u8>,
    scope: Option<Seq<u8>>,
    i: int,
    q: int,
)
    requires
        0 <= i <= q < syms.len(),
        declared_as(syms[q], name, scope),
    ensures
        first_from(syms, name, scope, i) matches Some(k) && i <= k <= q && declared_as(syms[k], name, scope),
    decreases q - i,
{
    if !declared_as(syms[i], name, scope) {
        lemma_first_from_finds(syms, name, scope, i + 1, q);
    }
}

/// Inside a class, every member of it is found by its name, in any case: the lookup in the
/// class's scope gives a variable of that name declared in that scope.
pub proof fn lemma_class_members_found_in_class_scope(
    ds: Seq<SpecDeclaration>,
    d: int,
    c: crate::types::SpecClass,
    m: int,
    name: Seq<u8>,
)
    requires
        0 <= d < ds.len(),
        ds[d] == SpecDeclaration::Class(c),
        0 <= m < c.members.len(),
        crate::lexer::eq_ignore_case(name, c.members[m].name.name),
    ensures
        ({
            let syms = decls_symbols(ds, 0);
            spec_lookup(syms, name, Some(c.name.name)) matches Some(k) && 0 <= k < syms.len()
                && declared_as(syms[k], name, Some(c.name.name))
        }),
{
    lemma_class_members_collected(ds, d, c);
    let syms = decls_symbols(ds, 0);
    let p = syms.len() - decls_symbols(ds, d).len();
    let q = p + 1 + m;
    assert(syms[q] == SpecSymbol::Var(c.members[m], Some(c.name)));
    let mn = c.members[m].name.name;
    let sc = c.name.name;
    assert forall|k: int| 0 <= k < mn.len() implies crate::lexer::lower(#[trigger] mn[k])
        == crate::lexer::lower(name[k]) by {
        assert(crate::lexer::lower(name[k]) == crate::lexer::lower(mn[k]));
    }
    assert(crate::lexer::eq_ignore_case(sc, sc));
    assert(declared_as(syms[q], name, Some(sc)));
    lemma_first_from_finds(syms, name, Some(sc), 0, q);
}

fn push_sym<'a>(out: &mut Vec<Symbol<'a>>, s: Symbol<'a>)
    ensures
        syms_view(final(out)@) == syms_view(old(out)@).push(s@),
{
    let ghost before = out@;
    out.push(s);
    proof {
        assert(syms_view(out@) =~= syms_view(before).push(s@));
    }
}

fn collect_vars<'a>(out: &mut Vec<Symbol<'a>>, decls: &'a Vec<VarDeclaration>, scope: Option<&'a Identifier>)
    ensures
        syms_view(final(out)@) == syms_view(old(out)@) + vars_in(
            var_decls_view(decls@),
            match scope {
                Some(s) => Some(s@),
                None => None,
            },
        ),
{
    let ghost sv = match scope {
        Some(s) => Some(s@),
        None => None,
    };
    let ghost start = syms_view(out@);
    let mut k: usize = 0;
    while k < decls.len()
        invariant
            k <= decls@.len(),
            sv == match scope {
                Some(s) => Some(s@),
                None => None,
            },
            syms_view(out@) == start + vars_in(var_decls_view(decls@), sv).take(k as int),
        decreases decls@.len() - k,
    {
        push_sym(out, Symbol::Var(&decls[k], scope));
        proof {
            assert(vars_in(var_decls_view(decls@), sv).take(k as int + 1) =~= vars_in(
                var_decls_view(decls@),
                sv,
            ).take(k as int).push(SpecSymbol::Var(decls@[k as int]@, sv)));
        }
        k += 1;
    }
    proof {
        assert(vars_in(var_decls_view(decls@), sv).take(k as int) =~= vars_in(var_decls_view(decls@), sv));
    }
}

fn collect_stmt<'a>(out: &mut Vec<Symbol<'a>>, s: &'a Statement, scope: &'a Identifier)
    ensures
        syms_view(final(out)@) == syms_view(old(out)@) + stmt_symbols(s@, scope@),
    decreases s, 0int,
{
    match s {
        Statement::VarDeclarations(ds) => collect_vars(out, ds, Some(scope)),
        Statement::ConstDeclaration(d) => push_sym(out, Symbol::Const(d, Some(scope))),
        Statement::ConstArrayDeclaration(d) => push_sym(out, Symbol::ConstArray(d, Some(scope))),
        Statement::If(ifc) => {
            proof {
                assert(decreases_to!(*s => **ifc));
            }
            collect_if(out, ifc, scope);
        },
        _ => {
            proof {
                assert(syms_view(out@) =~= syms_view(out@) + Seq::<SpecSymbol>::empty());
            }
        },
    }
}

fn collect_if<'a>(out: &mut Vec<Symbol<'a>>, ifc: &'a IfStatement, scope: &'a Identifier)
    ensures
        syms_view(final(out)@) == syms_view(old(out)@) + stmt_symbols(if_view(*ifc), scope@),
    decreases ifc, 0int,
{
        let ghost start = syms_view(out@);
        let ghost brs = branches_view(ifc.branches@);
        proof {
            lemma_branches_view_len(ifc.branches@);
        }
        let branches = &ifc.branches;
        let mut i: usize = 0;
        while i < branches.len()
            invariant
                branches == &ifc.branches,
                brs == branches_view(branches@),
                brs.len() == branches@.len(),
                forall|j: int|
                    0 <= j < branches@.len() ==> #[trigger] brs[j].1 == stmts_view(branches@[j].body@),
                i <= branches@.len(),
                start + branches_symbols(brs, scope@, 0) == syms_view(out@) + branches_symbols(
                    brs,
                    scope@,
                    i as int,
                ),
            decreases branches@.len() - i,
        {
            let ghost before = syms_view(out@);
            proof {
                assert(brs[i as int].1 == stmts_view(branches@[i as int].body@));
                assert(decreases_to!(*ifc => ifc.branches));
                assert(decreases_to!(ifc.branches => ifc.branches@));
                assert(decreases_to!(ifc.branches@ => ifc.branches@[i as int]));
            }
            collect_stmts(out, &branches[i].body, scope);
            proof {
                assert(before + branches_symbols(brs, scope@, i as int) =~= syms_view(out@)
                    + branches_symbols(brs, scope@, i as int + 1));
            }
            i += 1;
        }
        proof {
            assert(start + branches_symbols(brs, scope@, 0) =~= syms_view(out@));
        }
        match &ifc.else_branch {
            Some(b) => {
                proof {
                    assert(decreases_to!(*ifc => ifc.else_branch));
                }
                collect_stmts(out, b, scope);
            },
            None => {
                proof {
                    assert(syms_view(out@) =~= syms_view(out@) + Seq::<SpecSymbol>::empty());
                }
            },
        }
        proof {
            assert(syms_view(out@) =~= start + stmt_symbols(if_view(*ifc), scope@));
        }
}

fn collect_stmts<'a>(out: &mut Vec<Symbol<'a>>, ss: &'a Vec<Statement>, scope: &'a Identifier)
    ensures
        syms_view(final(out)@) == syms_view(old(out)@) + stmts_symbols(stmts_view(ss@), scope@, 0),
    decreases ss, 0int,
{
    let ghost start = syms_view(out@);
    let ghost sv = stmts_view(ss@);
    proof {
        lemma_stmts_view_len(ss@);
    }
    let mut k: usize = 0;
    while k < ss.len()
        invariant
            sv == stmts_view(ss@),
            sv.len() == ss@.len(),
            forall|j: int| 0 <= j < ss@.len() ==> #[trigger] sv[j] == stmt_view(ss@[j]),
            k <= ss@.len(),
            start + stmts_symbols(sv, scope@, 0) == syms_view(out@) + stmts_symbols(sv, scope@, k as int),
        decreases ss@.len() - k,
    {
        let ghost before = syms_view(out@);
        proof {
            assert(sv[k as int] == ss@[k as int]@);
            assert(decreases_to!(*ss => ss@));
            assert(decreases_to!(ss@ => ss@[k as int]));
        }
        collect_stmt(out, &ss[k], scope);
        proof {
            assert(before + stmts_symbols(sv, scope@, k as int) =~= syms_view(out@) + stmts_symbols(
                sv,
                scope@,
                k as int + 1,
            ));
        }
        k += 1;
    }
    proof {
        assert(start + stmts_symbols(sv, scope@, 0) =~= syms_view(out@));
    }
}

fn collect_decl<'a>(out: &mut Vec<Symbol<'a>>, d: &'a Declaration)
    ensures
        syms_view(final(out)@) == syms_view(old(out)@) + decl_symbols(d@),
{
    let ghost start = syms_view(out@);
    match d {
        Declaration::Var(ds) => collect_vars(out, ds, None),
        Declaration::Func(f) => {
            push_sym(out, Symbol::Func(f));
            collect_stmts(out, &f.body, &f.name);
            proof {
                assert(syms_view(out@) =~= start + decl_symbols(d@));
            }
        },
        Declaration::Class(c) => {
            push_sym(out, Symbol::Class(c));
            collect_vars(out, &c.members, Some(&c.name));
            proof {
                assert(syms_view(out@) =~= start + decl_symbols(d@));
            }
        },
        Declaration::Inst(is) => {
            let ghost iv = is@.map_values(|i: crate::types::Instance| i@);
            let mut k: usize = 0;
            while k < is.len()
                invariant
                    iv == is@.map_values(|i: crate::types::Instance| i@),
                    k <= is@.len(),
                    start + insts_symbols(iv, 0) == syms_view(out@) + insts_symbols(iv, k as int),
                decreases is@.len() - k,
            {
                let ghost before = syms_view(out@);
                let inst = &is[k];
                push_sym(out, Symbol::Inst(inst));
                collect_stmts(out, &inst.body, &inst.name);
                proof {
                    assert(iv[k as int] == inst@);
                    assert(before + insts_symbols(iv, k as int) =~= syms_view(out@) + insts_symbols(
                        iv,
                        k as int + 1,
                    ));
                }
                k += 1;
            }
            proof {
                assert(start + insts_symbols(iv, 0) =~= syms_view(out@));
            }
        },
        Declaration::Proto(p) => push_sym(out, Symbol::Proto(p)),
        Declaration::Const(c) => push_sym(out, Symbol::Const(c, None)),
        Declaration::ConstArray(c) => push_sym(out, Symbol::ConstArray(c, None)),
    }
}

/// The symbols a program declares, in the order of its declarations: each declared thing,
/// then the variables and constants declared inside it.
pub fn collect_symbols<'a>(ast: &'a AST) -> (r: Vec<Symbol<'a>>)
    ensures
        syms_view(r@) == decls_symbols(decls_view(ast.declarations@), 0),
{
    let ghost dv = decls_view(ast.declarations@);
    let mut out: Vec<Symbol<'a>> = Vec::new();
    let decls = &ast.declarations;
    let mut k: usize = 0;
    proof {
        assert(syms_view(out@) =~= Seq::<SpecSymbol>::empty());
    }
    while k < decls.len()
        invariant
            decls == &ast.declarations,
            dv == decls_view(decls@),
            k <= decls@.len(),
            decls_symbols(dv, 0) == syms_view(out@) + decls_symbols(dv, k as int),
        decreases decls@.len() - k,
    {
        let ghost before = syms_view(out@);
        collect_decl(&mut out, &decls[k]);
        proof {
            assert(dv[k as int] == decls@[k as int]@);
            assert(before + decls_symbols(dv, k as int) =~= syms_view(out@) + decls_symbols(
                dv,
                k as int + 1,
            ));
        }
        k += 1;
    }
    proof {
        assert(decls_symbols(dv, 0) =~= syms_view(out@));
    }
    out
}

} // verus!
